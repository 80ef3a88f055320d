//! Turning the text of a CSS module into the lines of its TypeScript declaration.
use crate::matching::{all_matches, erased, pieces, views};
use crate::parse_and_printout::str_ext::{
    bare_name, camel_case, selector_list, selectors_from, StrExt, BLOCK_PATTERN, COMMA_PATTERN,
    COMMENT_PATTERN,
};
use crate::parse_and_printout::text::{reserved_words, ts_reserved_words};
use crate::strings::{lemma_split_on_len, split_char, split_on, trimmed};
use vstd::prelude::*;
use vstd::string::*;

verus! {

/// How names are written out, and where.
pub struct ModFlags<'c> {
    pub camel_case_flag: bool,
    pub out_dir: &'c String,
}

/// The declaration line for one name.
pub open spec fn declaration_line(name: Seq<char>) -> Seq<char> {
    "readonly '"@ + name + "': string;"@
}

/// The sequence without repeats, each kept where it first occurs.
pub open spec fn dedup(s: Seq<Seq<char>>) -> Seq<Seq<char>>
    decreases s.len(),
{
    if s.len() == 0 {
        Seq::empty()
    } else {
        let r = dedup(s.drop_last());
        if r.contains(s.last()) {
            r
        } else {
            r.push(s.last())
        }
    }
}

/// The lines that one selector piece contributes: none for a reserved name.
pub open spec fn lines_of_piece(piece: Seq<char>, camel: bool) -> Seq<Seq<char>> {
    let name = bare_name(piece);
    if reserved_words().contains(name) {
        Seq::empty()
    } else if camel {
        seq![declaration_line(camel_case(name))]
    } else {
        seq![declaration_line(name)]
    }
}

/// The lines of a list of selector pieces, in order.
pub open spec fn lines_of_pieces(ps: Seq<Seq<char>>, camel: bool) -> Seq<Seq<char>>
    decreases ps.len(),
{
    if ps.len() == 0 {
        Seq::empty()
    } else {
        lines_of_pieces(ps.drop_last(), camel) + lines_of_piece(ps.last(), camel)
    }
}

/// The pieces of one selector list.
pub open spec fn pieces_of(name: Seq<char>) -> Seq<Seq<char>> {
    selector_list(name, pieces(COMMA_PATTERN@, name))
}

/// The lines of a list of selector lists, in order.
pub open spec fn lines_of_names(names: Seq<Seq<char>>, camel: bool) -> Seq<Seq<char>>
    decreases names.len(),
{
    if names.len() == 0 {
        Seq::empty()
    } else {
        lines_of_names(names.drop_last(), camel) + lines_of_pieces(pieces_of(names.last()), camel)
    }
}

/// The selector lists of a CSS text: its rules' heads once comments are gone.
pub open spec fn selector_lists(contents: Seq<char>) -> Seq<Seq<char>> {
    selectors_from(all_matches(BLOCK_PATTERN@, erased(COMMENT_PATTERN@, contents)))
}

/// Every declaration line of a CSS text, in order, repeats included.
pub open spec fn declaration_lines(contents: Seq<char>, camel: bool) -> Seq<Seq<char>> {
    lines_of_names(selector_lists(contents), camel)
}

/// Where the declaration file of a CSS file goes: beside it, or under `out_dir` by its file name.
pub open spec fn outfile_for(path: Seq<char>, out_dir: Seq<char>) -> Seq<char> {
    if out_dir.len() == 0 {
        path + ".d.ts"@
    } else {
        out_dir + "/"@ + split_on(path, '/').last() + ".d.ts"@
    }
}

/// Law: `dedup` keeps every element and repeats none.
pub proof fn lemma_dedup(s: Seq<Seq<char>>)
    ensures
        dedup(s).no_duplicates(),
        forall|x: Seq<char>| dedup(s).contains(x) <==> s.contains(x),
    decreases s.len(),
{
    if s.len() > 0 {
        let t = s.drop_last();
        lemma_dedup(t);
        let r = dedup(t);
        assert forall|x: Seq<char>| dedup(s).contains(x) <==> s.contains(x) by {
            if s.contains(x) {
                let k = choose|k: int| 0 <= k < s.len() && s[k] == x;
                if k < s.len() - 1 {
                    assert(t[k] == x);
                    assert(t.contains(x));
                    assert(r.contains(x));
                    let m = choose|m: int| 0 <= m < r.len() && r[m] == x;
                    if !r.contains(s.last()) {
                        assert(r.push(s.last())[m] == x);
                    }
                } else {
                    if !r.contains(s.last()) {
                        assert(r.push(s.last())[r.len() as int] == x);
                    }
                }
            }
            if dedup(s).contains(x) {
                if r.contains(x) {
                    assert(t.contains(x));
                    let k = choose|k: int| 0 <= k < t.len() && t[k] == x;
                    assert(s[k] == x);
                } else {
                    let m = choose|m: int| 0 <= m < dedup(s).len() && dedup(s)[m] == x;
                    if m < r.len() {
                        assert(r[m] == x);
                    }
                    assert(x == s.last());
                    assert(s[s.len() - 1] == x);
                }
            }
        }
        if !r.contains(s.last()) {
            let p = r.push(s.last());
            assert forall|i: int, j: int| 0 <= i < j < p.len() implies p[i] != p[j] by {
                if j == p.len() - 1 {
                    assert(r[i] == p[i]);
                }
            }
        }
    }
}

/// `line` declares some name; without the camelCase conversion that name is no reserved word.
pub open spec fn declares_name(line: Seq<char>, camel: bool) -> bool {
    exists|n: Seq<char>| line == declaration_line(n) && (!camel ==> !reserved_words().contains(n))
}

proof fn lemma_piece_lines(piece: Seq<char>, camel: bool)
    ensures
        forall|k: int| 0 <= k < lines_of_piece(piece, camel).len() ==> declares_name(
            #[trigger] lines_of_piece(piece, camel)[k],
            camel,
        ),
{
    let name = bare_name(piece);
    if !reserved_words().contains(name) {
        if camel {
            assert(lines_of_piece(piece, camel)[0] == declaration_line(camel_case(name)));
        } else {
            assert(lines_of_piece(piece, camel)[0] == declaration_line(name));
        }
    }
}

proof fn lemma_pieces_lines(ps: Seq<Seq<char>>, camel: bool)
    ensures
        forall|k: int| 0 <= k < lines_of_pieces(ps, camel).len() ==> declares_name(
            #[trigger] lines_of_pieces(ps, camel)[k],
            camel,
        ),
    decreases ps.len(),
{
    if ps.len() > 0 {
        lemma_pieces_lines(ps.drop_last(), camel);
        lemma_piece_lines(ps.last(), camel);
        let a = lines_of_pieces(ps.drop_last(), camel);
        let b = lines_of_piece(ps.last(), camel);
        assert forall|k: int| 0 <= k < (a + b).len() implies declares_name(#[trigger] (a + b)[k], camel) by {
            if k < a.len() {
                assert((a + b)[k] == a[k]);
            } else {
                assert((a + b)[k] == b[k - a.len()]);
            }
        }
    }
}

proof fn lemma_names_lines(names: Seq<Seq<char>>, camel: bool)
    ensures
        forall|k: int| 0 <= k < lines_of_names(names, camel).len() ==> declares_name(
            #[trigger] lines_of_names(names, camel)[k],
            camel,
        ),
    decreases names.len(),
{
    if names.len() > 0 {
        lemma_names_lines(names.drop_last(), camel);
        lemma_pieces_lines(pieces_of(names.last()), camel);
        let a = lines_of_names(names.drop_last(), camel);
        let b = lines_of_pieces(pieces_of(names.last()), camel);
        assert forall|k: int| 0 <= k < (a + b).len() implies declares_name(#[trigger] (a + b)[k], camel) by {
            if k < a.len() {
                assert((a + b)[k] == a[k]);
            } else {
                assert((a + b)[k] == b[k - a.len()]);
            }
        }
    }
}

/// Law: every line that a CSS text yields is `readonly '<name>': string;`, and
/// without the camelCase conversion no such name is a TypeScript reserved word.
pub proof fn lemma_declaration_lines_shape(contents: Seq<char>, camel: bool)
    ensures
        forall|x: Seq<char>| declaration_lines(contents, camel).contains(x) ==> declares_name(x, camel),
{
    lemma_names_lines(selector_lists(contents), camel);
}

/// The name that a declaration line declares.
pub open spec fn declared_name(line: Seq<char>) -> Seq<char> {
    line.subrange("readonly '"@.len() as int, line.len() - "': string;"@.len())
}

/// A declaration line with its name in camelCase.
pub open spec fn camel_line(line: Seq<char>) -> Seq<char> {
    declaration_line(camel_case(declared_name(line)))
}

proof fn lemma_declared_name(n: Seq<char>)
    ensures
        declared_name(declaration_line(n)) == n,
{
    let a = "readonly '"@;
    let b = "': string;"@;
    assert((a + n + b).subrange(a.len() as int, (a + n + b).len() - b.len()) =~= n);
}

proof fn lemma_camel_piece(p: Seq<char>)
    ensures
        lines_of_piece(p, true) == lines_of_piece(p, false).map_values(|l: Seq<char>| camel_line(l)),
{
    lemma_declared_name(bare_name(p));
    assert(lines_of_piece(p, true) =~= lines_of_piece(p, false).map_values(|l: Seq<char>| camel_line(l)));
}

proof fn lemma_camel_pieces(ps: Seq<Seq<char>>)
    ensures
        lines_of_pieces(ps, true) == lines_of_pieces(ps, false).map_values(|l: Seq<char>| camel_line(l)),
    decreases ps.len(),
{
    if ps.len() == 0 {
        assert(lines_of_pieces(ps, false).map_values(|l: Seq<char>| camel_line(l)) =~= Seq::<Seq<char>>::empty());
    } else {
        lemma_camel_pieces(ps.drop_last());
        lemma_camel_piece(ps.last());
        let a = lines_of_pieces(ps.drop_last(), false);
        let b = lines_of_piece(ps.last(), false);
        assert((a + b).map_values(|l: Seq<char>| camel_line(l)) =~= a.map_values(|l: Seq<char>| camel_line(l))
            + b.map_values(|l: Seq<char>| camel_line(l)));
    }
}

proof fn lemma_camel_names(names: Seq<Seq<char>>)
    ensures
        lines_of_names(names, true) == lines_of_names(names, false).map_values(|l: Seq<char>| camel_line(l)),
    decreases names.len(),
{
    if names.len() == 0 {
        assert(lines_of_names(names, false).map_values(|l: Seq<char>| camel_line(l)) =~= Seq::<Seq<char>>::empty());
    } else {
        lemma_camel_names(names.drop_last());
        lemma_camel_pieces(pieces_of(names.last()));
        let a = lines_of_names(names.drop_last(), false);
        let b = lines_of_pieces(pieces_of(names.last()), false);
        assert((a + b).map_values(|l: Seq<char>| camel_line(l)) =~= a.map_values(|l: Seq<char>| camel_line(l))
            + b.map_values(|l: Seq<char>| camel_line(l)));
    }
}

/// Law: the camelCase flag only renames. The camelCase lines of a CSS text are
/// its plain lines, in order, each with its name converted; so the declarations
/// with the flag are exactly the conversions of those without it (two names
/// may convert to one, as `a-b` and `a--b` both give `aB`).
pub proof fn lemma_camel_only_renames(contents: Seq<char>)
    ensures
        declaration_lines(contents, true) == declaration_lines(contents, false).map_values(
            |l: Seq<char>| camel_line(l),
        ),
        forall|x: Seq<char>|
            dedup(declaration_lines(contents, true)).contains(x) <==> exists|y: Seq<char>|
                dedup(declaration_lines(contents, false)).contains(y) && x == camel_line(y),
{
    lemma_camel_names(selector_lists(contents));
    let plain = declaration_lines(contents, false);
    let camel = declaration_lines(contents, true);
    lemma_dedup(plain);
    lemma_dedup(camel);
    assert forall|x: Seq<char>|
        dedup(camel).contains(x) <==> exists|y: Seq<char>| dedup(plain).contains(y) && x == camel_line(y) by {
        if dedup(camel).contains(x) {
            assert(camel.contains(x));
            let k = choose|k: int| 0 <= k < camel.len() && camel[k] == x;
            assert(camel[k] == camel_line(plain[k]));
            assert(plain.contains(plain[k]));
            assert(dedup(plain).contains(plain[k]));
        }
        if exists|y: Seq<char>| dedup(plain).contains(y) && x == camel_line(y) {
            let y = choose|y: Seq<char>| dedup(plain).contains(y) && x == camel_line(y);
            assert(plain.contains(y));
            let k = choose|k: int| 0 <= k < plain.len() && plain[k] == y;
            assert(camel[k] == x);
            assert(camel.contains(x));
        }
    }
}

/// The declaration line of a selector's bare name, converted to camelCase where `camel` is set.
pub open spec fn line_for(name: Seq<char>, camel: bool) -> Seq<char> {
    if camel {
        declaration_line(camel_case(name))
    } else {
        declaration_line(name)
    }
}

proof fn lemma_contains_left(a: Seq<Seq<char>>, b: Seq<Seq<char>>, x: Seq<char>)
    requires
        a.contains(x),
    ensures
        (a + b).contains(x),
{
    let k = choose|k: int| 0 <= k < a.len() && a[k] == x;
    assert((a + b)[k] == x);
}

proof fn lemma_contains_right(a: Seq<Seq<char>>, b: Seq<Seq<char>>, x: Seq<char>)
    requires
        b.contains(x),
    ensures
        (a + b).contains(x),
{
    let k = choose|k: int| 0 <= k < b.len() && b[k] == x;
    assert((a + b)[a.len() + k] == x);
}

proof fn lemma_pieces_declared(ps: Seq<Seq<char>>, camel: bool)
    ensures
        forall|j: int|
            0 <= j < ps.len() && !reserved_words().contains(bare_name(#[trigger] ps[j])) ==> lines_of_pieces(
                ps,
                camel,
            ).contains(line_for(bare_name(ps[j]), camel)),
    decreases ps.len(),
{
    if ps.len() > 0 {
        let t = ps.drop_last();
        lemma_pieces_declared(t, camel);
        let a = lines_of_pieces(t, camel);
        let b = lines_of_piece(ps.last(), camel);
        assert forall|j: int|
            0 <= j < ps.len() && !reserved_words().contains(bare_name(#[trigger] ps[j])) implies (a + b).contains(
            line_for(bare_name(ps[j]), camel),
        ) by {
            if j < t.len() {
                assert(t[j] == ps[j]);
                lemma_contains_left(a, b, line_for(bare_name(ps[j]), camel));
            } else {
                assert(b[0] == line_for(bare_name(ps[j]), camel));
                assert(b.contains(b[0]));
                lemma_contains_right(a, b, line_for(bare_name(ps[j]), camel));
            }
        }
    }
}

proof fn lemma_names_declared(names: Seq<Seq<char>>, camel: bool)
    ensures
        forall|k: int, x: Seq<char>|
            0 <= k < names.len() && #[trigger] lines_of_pieces(pieces_of(names[k]), camel).contains(x)
                ==> lines_of_names(names, camel).contains(x),
    decreases names.len(),
{
    if names.len() > 0 {
        let t = names.drop_last();
        lemma_names_declared(t, camel);
        let a = lines_of_names(t, camel);
        let b = lines_of_pieces(pieces_of(names.last()), camel);
        assert forall|k: int, x: Seq<char>|
            0 <= k < names.len() && #[trigger] lines_of_pieces(pieces_of(names[k]), camel).contains(x) implies (a
            + b).contains(x) by {
            if k < t.len() {
                assert(t[k] == names[k]);
                lemma_contains_left(a, b, x);
            } else {
                lemma_contains_right(a, b, x);
            }
        }
    }
}

/// Law: every selector of every rule head in a CSS text is declared. Where the
/// head is a comma separated list, each of its selectors, trimmed, gets its own
/// line; where it holds one selector, that selector does. Only reserved words
/// are left out.
pub proof fn lemma_every_selector_declared(contents: Seq<char>, camel: bool)
    ensures
        forall|k: int, j: int|
            0 <= k < selector_lists(contents).len() && pieces(COMMA_PATTERN@, #[trigger] selector_lists(contents)[k]).len()
                > 1 && 0 <= j < pieces(COMMA_PATTERN@, selector_lists(contents)[k]).len() && !reserved_words().contains(
                bare_name(trimmed(#[trigger] pieces(COMMA_PATTERN@, selector_lists(contents)[k])[j])),
            ) ==> declaration_lines(contents, camel).contains(
                line_for(bare_name(trimmed(pieces(COMMA_PATTERN@, selector_lists(contents)[k])[j])), camel),
            ),
        forall|k: int|
            0 <= k < selector_lists(contents).len() && pieces(COMMA_PATTERN@, #[trigger] selector_lists(contents)[k]).len()
                <= 1 && !reserved_words().contains(bare_name(selector_lists(contents)[k]))
                ==> declaration_lines(contents, camel).contains(line_for(bare_name(selector_lists(contents)[k]), camel)),
{
    let names = selector_lists(contents);
    lemma_names_declared(names, camel);
    assert forall|k: int, j: int|
        0 <= k < names.len() && pieces(COMMA_PATTERN@, #[trigger] names[k]).len() > 1 && 0 <= j < pieces(
            COMMA_PATTERN@,
            names[k],
        ).len() && !reserved_words().contains(
            bare_name(trimmed(#[trigger] pieces(COMMA_PATTERN@, names[k])[j])),
        ) implies lines_of_names(names, camel).contains(
        line_for(bare_name(trimmed(pieces(COMMA_PATTERN@, names[k])[j])), camel),
    ) by {
        let ps = pieces_of(names[k]);
        let parts = pieces(COMMA_PATTERN@, names[k]);
        assert(ps == parts.map_values(|p: Seq<char>| trimmed(p)));
        assert(ps[j] == trimmed(parts[j]));
        lemma_pieces_declared(ps, camel);
    }
    assert forall|k: int|
        0 <= k < names.len() && pieces(COMMA_PATTERN@, #[trigger] names[k]).len() <= 1 && !reserved_words().contains(
            bare_name(names[k]),
        ) implies lines_of_names(names, camel).contains(line_for(bare_name(names[k]), camel)) by {
        let ps = pieces_of(names[k]);
        assert(ps == seq![names[k]]);
        assert(ps[0] == names[k]);
        lemma_pieces_declared(ps, camel);
    }
}

/// `format!("readonly '{}': string;", name)`.
pub fn format_line(name: String) -> (res: String)
    ensures
        res@ == declaration_line(name@),
{
    String::from_str("readonly '").concat(name.as_str()).concat("': string;")
}

/// Whether a word is one of TypeScript's reserved words.
pub fn check_reserved(word: String) -> (res: bool)
    ensures
        res == reserved_words().contains(word@),
{
    let res_vec = ts_reserved_words();
    let ghost words = res_vec@.map_values(|w: &str| w@);
    let mut i: usize = 0;
    while i < res_vec.len()
        invariant
            i <= res_vec@.len(),
            words == res_vec@.map_values(|w: &str| w@),
            words == reserved_words(),
            forall|k: int| 0 <= k < i ==> words[k] != word@,
        decreases res_vec@.len() - i,
    {
        if word == String::from_str(res_vec[i]) {
            assert(words[i as int] == word@);
            return true;
        }
        i = i + 1;
    }
    false
}

/// Whether `v` holds a string equal to `x`.
pub fn holds(v: &Vec<String>, x: &String) -> (res: bool)
    ensures
        res == views(v@).contains(x@),
{
    let mut i: usize = 0;
    while i < v.len()
        invariant
            i <= v@.len(),
            forall|k: int| 0 <= k < i ==> v@[k]@ != x@,
        decreases v@.len() - i,
    {
        if v[i] == *x {
            assert(views(v@)[i as int] == x@);
            return true;
        }
        i = i + 1;
    }
    false
}

/// Adds `x` to `v` unless `v` already holds it: the insertion of a set.
pub fn insert_unique(v: &mut Vec<String>, x: String)
    ensures
        views(final(v)@) == (if views(old(v)@).contains(x@) {
            views(old(v)@)
        } else {
            views(old(v)@).push(x@)
        }),
{
    if !holds(v, &x) {
        let ghost before = views(v@);
        v.push(x);
        assert(views(v@) =~= before.push(x@));
    }
}

/// The lines of one selector piece, added to the set `out`.
fn add_piece(out: &mut Vec<String>, piece: &str, camel: bool, Ghost(all): Ghost<Seq<Seq<char>>>)
    requires
        views(old(out)@) == dedup(all),
    ensures
        views(final(out)@) == dedup(all + lines_of_piece(piece@, camel)),
{
    let parsed_name = piece.remove_modifiers();
    if !check_reserved(parsed_name.clone()) {
        let line = if camel {
            format_line(parsed_name.as_str().camel_case_converter())
        } else {
            format_line(parsed_name)
        };
        proof {
            let added = all + lines_of_piece(piece@, camel);
            assert(added.drop_last() =~= all);
        }
        insert_unique(out, line);
    } else {
        assert(all + lines_of_piece(piece@, camel) =~= all);
    }
}

/// The distinct declaration lines of a CSS text, each where it first occurs.
pub fn declarations(contents: &str, camel: bool) -> (res: Vec<String>)
    ensures
        views(res@) == dedup(declaration_lines(contents@, camel)),
        views(res@).no_duplicates(),
        forall|x: Seq<char>| views(res@).contains(x) <==> declaration_lines(contents@, camel).contains(x),
        forall|x: Seq<char>| views(res@).contains(x) ==> declares_name(x, camel),
{
    proof {
        lemma_dedup(declaration_lines(contents@, camel));
        lemma_declaration_lines_shape(contents@, camel);
    }
    let san_contents = contents.remove_comments();
    let names = san_contents.as_str().get_classes_or_ids();
    let ghost lists = views(names@);
    let mut out: Vec<String> = Vec::new();
    let ghost mut all: Seq<Seq<char>> = Seq::empty();
    let mut i: usize = 0;
    while i < names.len()
        invariant
            i <= names@.len(),
            lists == views(names@),
            lists == selector_lists(contents@),
            all == lines_of_names(lists.subrange(0, i as int), camel),
            views(out@) == dedup(all),
        decreases names@.len() - i,
    {
        let split_names = names[i].as_str().split_classes_ids();
        let ghost ps = views(split_names@);
        let ghost base = all;
        let mut j: usize = 0;
        while j < split_names.len()
            invariant
                j <= split_names@.len(),
                ps == views(split_names@),
                all == base + lines_of_pieces(ps.subrange(0, j as int), camel),
                views(out@) == dedup(all),
            decreases split_names@.len() - j,
        {
            add_piece(&mut out, split_names[j].as_str(), camel, Ghost(all));
            proof {
                let next = ps.subrange(0, j + 1);
                assert(next.drop_last() =~= ps.subrange(0, j as int));
                assert(next.last() == split_names@[j as int]@);
                assert(base + lines_of_pieces(next, camel) =~= all + lines_of_piece(
                    split_names@[j as int]@,
                    camel,
                ));
                all = all + lines_of_piece(split_names@[j as int]@, camel);
            }
            j = j + 1;
        }
        proof {
            let next = lists.subrange(0, i + 1);
            assert(next.drop_last() =~= lists.subrange(0, i as int));
            assert(next.last() == names@[i as int]@);
            assert(ps == pieces_of(names@[i as int]@));
            assert(ps.subrange(0, ps.len() as int) =~= ps);
        }
        i = i + 1;
    }
    assert(lists.subrange(0, lists.len() as int) =~= lists);
    out
}

/// The name of the declaration file of `path`.
pub fn outfile_name(path: &String, out_dir: &String) -> (res: String)
    ensures
        res@ == outfile_for(path@, out_dir@),
{
    if out_dir.as_str().unicode_len() != 0 {
        let parts = split_char(path.as_str(), '/');
        proof {
            lemma_split_on_len(path@, '/');
        }
        let last = parts.len() - 1;
        assert(parts@[last as int]@ == split_on(path@, '/').last());
        out_dir.clone().concat("/").concat(parts[last].as_str()).concat(".d.ts")
    } else {
        path.clone().concat(".d.ts")
    }
}

/// The declaration lines of a CSS file's text and the name of its declaration file.
pub fn parse_file_data(path: &String, contents: &str, mod_flags: &ModFlags) -> (res: (
    Vec<String>,
    String,
))
    ensures
        views(res.0@) == dedup(declaration_lines(contents@, mod_flags.camel_case_flag)),
        views(res.0@).no_duplicates(),
        forall|x: Seq<char>|
            views(res.0@).contains(x) <==> declaration_lines(contents@, mod_flags.camel_case_flag).contains(x),
        forall|x: Seq<char>| views(res.0@).contains(x) ==> declares_name(x, mod_flags.camel_case_flag),
        res.1@ == outfile_for(path@, mod_flags.out_dir@),
{
    let outfile = outfile_name(path, mod_flags.out_dir);
    (declarations(contents, mod_flags.camel_case_flag), outfile)
}

} // verus!
