//! Pattern matching over text through the `regex` crate.
//!
//! Each wrapper below compiles a pattern with `regex::Regex::new` and runs one
//! search on a haystack. What a search returns is named by a specification
//! function of the pattern and the haystack; the verified helpers at the end of
//! the file turn a pattern that does not compile into a stated fallback.
use vstd::prelude::*;

verus! {

#[verifier::external_type_specification]
#[verifier::external_body]
pub struct ExRegexError(regex::Error);

/// Whether `regex::Regex::new` accepts the pattern.
pub uninterp spec fn pattern_compiles(pattern: Seq<char>) -> bool;

/// The texts of the successive non-overlapping matches that
/// `regex::Regex::find_iter` yields for a compiled pattern.
pub uninterp spec fn regex_matches(pattern: Seq<char>, haystack: Seq<char>) -> Seq<Seq<char>>;

/// What `regex::Regex::replace_all` returns when every match is replaced by the empty string.
pub uninterp spec fn regex_erased(pattern: Seq<char>, haystack: Seq<char>) -> Seq<char>;

/// The pieces of the haystack between matches, as `regex::Regex::split` yields them.
pub uninterp spec fn regex_pieces(pattern: Seq<char>, haystack: Seq<char>) -> Seq<Seq<char>>;

/// The views of a sequence of strings.
pub open spec fn views(v: Seq<String>) -> Seq<Seq<char>> {
    v.map_values(|s: String| s@)
}

/// The view of an optional string.
pub open spec fn opt_view(o: Option<String>) -> Option<Seq<char>> {
    match o {
        Some(s) => Some(s@),
        None => None,
    }
}

/// `regex::Regex::new` then `regex::Regex::find_iter`: the matched texts,
/// as named by `regex_matches`; an error exactly when the pattern does not compile.
#[verifier::external_body]
fn regex_find_iter(pattern: &str, haystack: &str) -> (res: Result<Vec<String>, regex::Error>)
    ensures
        res is Ok <==> pattern_compiles(pattern@),
        res matches Ok(v) ==> views(v@) == regex_matches(pattern@, haystack@),
{
    let re = regex::Regex::new(pattern)?;
    Ok(re.find_iter(haystack).map(|m| m.as_str().to_string()).collect())
}

/// `regex::Regex::new` then `regex::Regex::find`: the first match, which is the
/// first of the matches that `find_iter` yields (both start at the beginning of
/// the haystack), or `None` where there is none.
#[verifier::external_body]
fn regex_find(pattern: &str, haystack: &str) -> (res: Result<Option<String>, regex::Error>)
    ensures
        res is Ok <==> pattern_compiles(pattern@),
        res matches Ok(o) ==> opt_view(o) == (if regex_matches(pattern@, haystack@).len() > 0 {
            Some(regex_matches(pattern@, haystack@)[0])
        } else {
            None::<Seq<char>>
        }),
{
    let re = regex::Regex::new(pattern)?;
    Ok(re.find(haystack).map(|m| m.as_str().to_string()))
}

/// `regex::Regex::new` then `regex::Regex::replace_all` with the empty replacement.
#[verifier::external_body]
fn regex_erase(pattern: &str, haystack: &str) -> (res: Result<String, regex::Error>)
    ensures
        res is Ok <==> pattern_compiles(pattern@),
        res matches Ok(s) ==> s@ == regex_erased(pattern@, haystack@),
{
    let re = regex::Regex::new(pattern)?;
    Ok(re.replace_all(haystack, "").to_string())
}

/// `regex::Regex::new` then `regex::Regex::split`.
#[verifier::external_body]
fn regex_split(pattern: &str, haystack: &str) -> (res: Result<Vec<String>, regex::Error>)
    ensures
        res is Ok <==> pattern_compiles(pattern@),
        res matches Ok(v) ==> views(v@) == regex_pieces(pattern@, haystack@),
{
    let re = regex::Regex::new(pattern)?;
    Ok(re.split(haystack).map(|p| p.to_string()).collect())
}

/// All matches of a pattern; none where the pattern does not compile.
pub open spec fn all_matches(pattern: Seq<char>, haystack: Seq<char>) -> Seq<Seq<char>> {
    if pattern_compiles(pattern) {
        regex_matches(pattern, haystack)
    } else {
        Seq::empty()
    }
}

/// The first match of a pattern, if any.
pub open spec fn first_match(pattern: Seq<char>, haystack: Seq<char>) -> Option<Seq<char>> {
    if all_matches(pattern, haystack).len() > 0 {
        Some(all_matches(pattern, haystack)[0])
    } else {
        None
    }
}

/// Whether a pattern matches anywhere in the haystack.
pub open spec fn is_match(pattern: Seq<char>, haystack: Seq<char>) -> bool {
    first_match(pattern, haystack) is Some
}

/// The haystack with every match removed; unchanged where the pattern does not compile.
pub open spec fn erased(pattern: Seq<char>, haystack: Seq<char>) -> Seq<char> {
    if pattern_compiles(pattern) {
        regex_erased(pattern, haystack)
    } else {
        haystack
    }
}

/// The pieces between matches; the whole haystack where the pattern does not compile.
pub open spec fn pieces(pattern: Seq<char>, haystack: Seq<char>) -> Seq<Seq<char>> {
    if pattern_compiles(pattern) {
        regex_pieces(pattern, haystack)
    } else {
        seq![haystack]
    }
}

/// The texts of all matches of `pattern` in `haystack`, in order.
pub fn find_all(pattern: &str, haystack: &str) -> (res: Vec<String>)
    ensures
        views(res@) == all_matches(pattern@, haystack@),
{
    match regex_find_iter(pattern, haystack) {
        Ok(v) => v,
        Err(_) => {
            let v: Vec<String> = Vec::new();
            assert(views(v@) =~= Seq::<Seq<char>>::empty());
            v
        },
    }
}

/// The first match of `pattern` in `haystack`.
pub fn find_first(pattern: &str, haystack: &str) -> (res: Option<String>)
    ensures
        opt_view(res) == first_match(pattern@, haystack@),
{
    match regex_find(pattern, haystack) {
        Ok(o) => o,
        Err(_) => None,
    }
}

/// Whether `pattern` matches anywhere in `haystack`.
pub fn matches_anywhere(pattern: &str, haystack: &str) -> (res: bool)
    ensures
        res == is_match(pattern@, haystack@),
{
    find_first(pattern, haystack).is_some()
}

/// `haystack` with every match of `pattern` removed.
pub fn erase_all(pattern: &str, haystack: &str) -> (res: String)
    ensures
        res@ == erased(pattern@, haystack@),
{
    match regex_erase(pattern, haystack) {
        Ok(s) => s,
        Err(_) => String::from_str(haystack),
    }
}

/// The pieces of `haystack` between the matches of `pattern`.
pub fn split_by(pattern: &str, haystack: &str) -> (res: Vec<String>)
    ensures
        views(res@) == pieces(pattern@, haystack@),
{
    match regex_split(pattern, haystack) {
        Ok(v) => v,
        Err(_) => {
            let mut v: Vec<String> = Vec::new();
            v.push(String::from_str(haystack));
            assert(views(v@) =~= seq![haystack@]);
            v
        },
    }
}

} // verus!
