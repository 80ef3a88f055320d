//! Verified text operations on `str`: searching, trimming, splitting on a
//! character and reading integers, each stated over the string's characters.
use vstd::prelude::*;
use vstd::string::*;

verus! {

/// Whether `c` has the Unicode `White_Space` property, which `char::is_whitespace`
/// and `str::trim` go by: U+0009 to U+000D, U+0020, U+0085, U+00A0, U+1680,
/// U+2000 to U+200A, U+2028, U+2029, U+202F, U+205F and U+3000.
pub open spec fn white_space(c: char) -> bool {
    ||| '\u{9}' <= c && c <= '\u{d}'
    ||| c == ' ' || c == '\u{85}' || c == '\u{a0}' || c == '\u{1680}'
    ||| '\u{2000}' <= c && c <= '\u{200a}'
    ||| c == '\u{2028}' || c == '\u{2029}' || c == '\u{202f}' || c == '\u{205f}' || c == '\u{3000}'
}

/// Whether `c` is a `White_Space` character.
pub fn is_white_space(c: char) -> (res: bool)
    ensures
        res == white_space(c),
{
    ('\u{9}' <= c && c <= '\u{d}') || c == ' ' || c == '\u{85}' || c == '\u{a0}' || c == '\u{1680}'
        || ('\u{2000}' <= c && c <= '\u{200a}') || c == '\u{2028}' || c == '\u{2029}' || c
        == '\u{202f}' || c == '\u{205f}' || c == '\u{3000}'
}

/// The characters of a string, in order.
pub fn chars_of(s: &str) -> (res: Vec<char>)
    ensures
        res@ == s@,
{
    let n = s.unicode_len();
    let mut v: Vec<char> = Vec::new();
    let mut i: usize = 0;
    while i < n
        invariant
            n == s@.len(),
            i <= n,
            v@ == s@.subrange(0, i as int),
        decreases n - i,
    {
        v.push(s.get_char(i));
        i = i + 1;
    }
    assert(v@ =~= s@);
    v
}

/// `needle` occurs in `hay` starting at index `i`.
pub open spec fn occurs_at(hay: Seq<char>, needle: Seq<char>, i: int) -> bool {
    0 <= i && i + needle.len() <= hay.len() && hay.subrange(i, i + needle.len()) == needle
}

/// `needle` occurs somewhere in `hay` (the empty needle occurs everywhere).
pub open spec fn has_text(hay: Seq<char>, needle: Seq<char>) -> bool {
    exists|i: int| occurs_at(hay, needle, i)
}

fn matches_at(hay: &Vec<char>, needle: &Vec<char>, i: usize) -> (res: bool)
    requires
        i + needle@.len() <= hay@.len(),
    ensures
        res == (hay@.subrange(i as int, i + needle@.len()) == needle@),
{
    let hl = hay.len();
    let mut j: usize = 0;
    while j < needle.len()
        invariant
            i + needle@.len() <= hay@.len(),
            hl == hay@.len(),
            j <= needle@.len(),
            forall|k: int| 0 <= k < j ==> hay@[i + k] == needle@[k],
        decreases needle@.len() - j,
    {
        if hay[i + j] != needle[j] {
            assert(hay@.subrange(i as int, i + needle@.len())[j as int] != needle@[j as int]);
            return false;
        }
        j = j + 1;
    }
    assert(hay@.subrange(i as int, i + needle@.len()) =~= needle@);
    true
}

/// `str::contains` with a string pattern.
pub fn contains_text(hay: &str, needle: &str) -> (res: bool)
    ensures
        res == has_text(hay@, needle@),
{
    let h = chars_of(hay);
    let n = chars_of(needle);
    if n.len() > h.len() {
        assert forall|i: int| !occurs_at(hay@, needle@, i) by {}
        return false;
    }
    let last = h.len() - n.len();
    let mut i: usize = 0;
    while i <= last
        invariant
            h@ == hay@,
            n@ == needle@,
            last == h@.len() - n@.len(),
            i <= last + 1,
            forall|k: int| 0 <= k < i ==> !#[trigger] occurs_at(hay@, needle@, k),
        decreases last + 1 - i,
    {
        if matches_at(&h, &n, i) {
            assert(occurs_at(hay@, needle@, i as int));
            return true;
        }
        if i == last {
            assert forall|k: int| !#[trigger] occurs_at(hay@, needle@, k) by {
                if 0 <= k < i {
                }
            }
            return false;
        }
        i = i + 1;
    }
    false
}

/// `str::ends_with` with a string pattern.
pub fn ends_with_text(s: &str, suffix: &str) -> (res: bool)
    ensures
        res == (suffix@.len() <= s@.len() && s@.subrange(s@.len() - suffix@.len(), s@.len() as int)
            == suffix@),
{
    let h = chars_of(s);
    let n = chars_of(suffix);
    if n.len() > h.len() {
        return false;
    }
    matches_at(&h, &n, h.len() - n.len())
}

/// `s` without its leading whitespace.
pub open spec fn trim_start(s: Seq<char>) -> Seq<char>
    decreases s.len(),
{
    if s.len() > 0 && white_space(s[0]) {
        trim_start(s.drop_first())
    } else {
        s
    }
}

/// `s` without its trailing whitespace.
pub open spec fn trim_end(s: Seq<char>) -> Seq<char>
    decreases s.len(),
{
    if s.len() > 0 && white_space(s.last()) {
        trim_end(s.drop_last())
    } else {
        s
    }
}

/// `s` without leading and trailing whitespace, as `str::trim` returns it.
pub open spec fn trimmed(s: Seq<char>) -> Seq<char> {
    trim_end(trim_start(s))
}

/// `str::trim`: leading and trailing `White_Space` characters removed.
pub fn trim_text(s: &str) -> (res: &str)
    ensures
        res@ == trimmed(s@),
{
    let n = s.unicode_len();
    assert(s@.subrange(0, n as int) =~= s@);
    let mut a: usize = 0;
    while a < n && is_white_space(s.get_char(a))
        invariant
            n == s@.len(),
            a <= n,
            trim_start(s@) == trim_start(s@.subrange(a as int, n as int)),
        decreases n - a,
    {
        assert(s@.subrange(a as int, n as int).drop_first() =~= s@.subrange(a + 1, n as int));
        a = a + 1;
    }
    assert(trim_start(s@) == s@.subrange(a as int, n as int));
    let mut b: usize = n;
    while b > a && is_white_space(s.get_char(b - 1))
        invariant
            n == s@.len(),
            a <= b <= n,
            trim_start(s@) == s@.subrange(a as int, n as int),
            trim_end(s@.subrange(a as int, n as int)) == trim_end(s@.subrange(a as int, b as int)),
        decreases b - a,
    {
        assert(s@.subrange(a as int, b as int).drop_last() =~= s@.subrange(a as int, b - 1));
        b = b - 1;
    }
    s.substring_char(a, b)
}

/// The pieces of `s` between occurrences of `sep`, as `str::split` yields them
/// for a character pattern: one more piece than there are separators.
pub open spec fn split_on(s: Seq<char>, sep: char) -> Seq<Seq<char>>
    decreases s.len(),
{
    if s.len() == 0 {
        seq![Seq::<char>::empty()]
    } else {
        let r = split_on(s.drop_last(), sep);
        if s.last() == sep {
            r.push(Seq::<char>::empty())
        } else {
            r.update(r.len() - 1, r.last().push(s.last()))
        }
    }
}

/// The pieces joined back together with `sep` between neighbours.
pub open spec fn join_on(pieces: Seq<Seq<char>>, sep: char) -> Seq<char>
    decreases pieces.len(),
{
    if pieces.len() == 0 {
        Seq::empty()
    } else if pieces.len() == 1 {
        pieces[0]
    } else {
        join_on(pieces.drop_last(), sep).push(sep) + pieces.last()
    }
}

/// Splitting never yields an empty list of pieces.
pub proof fn lemma_split_on_len(s: Seq<char>, sep: char)
    ensures
        split_on(s, sep).len() >= 1,
    decreases s.len(),
{
    if s.len() > 0 {
        lemma_split_on_len(s.drop_last(), sep);
    }
}

/// Text without the separator splits into itself alone.
pub proof fn lemma_split_on_single(s: Seq<char>, sep: char)
    requires
        !s.contains(sep),
    ensures
        split_on(s, sep) == seq![s],
    decreases s.len(),
{
    if s.len() > 0 {
        let t = s.drop_last();
        assert(!t.contains(sep)) by {
            if t.contains(sep) {
                let k = choose|k: int| 0 <= k < t.len() && t[k] == sep;
                assert(s[k] == sep);
            }
        }
        lemma_split_on_single(t, sep);
        assert(s[s.len() - 1] != sep);
        assert(t.push(s.last()) =~= s);
        assert(seq![t].update(0, t.push(s.last())) =~= seq![s]);
    } else {
        assert(s =~= Seq::<char>::empty());
        assert(seq![Seq::<char>::empty()] =~= seq![s]);
    }
}

/// Law: joining the pieces of a split with the same separator gives back the text,
/// and no piece holds the separator.
pub proof fn lemma_split_join(s: Seq<char>, sep: char)
    ensures
        join_on(split_on(s, sep), sep) == s,
        forall|k: int| 0 <= k < split_on(s, sep).len() ==> !(#[trigger] split_on(s, sep)[k]).contains(sep),
    decreases s.len(),
{
    lemma_split_on_len(s, sep);
    if s.len() == 0 {
        assert(!Seq::<char>::empty().contains(sep));
    } else {
        let t = s.drop_last();
        let r = split_on(t, sep);
        lemma_split_join(t, sep);
        lemma_split_on_len(t, sep);
        if s.last() == sep {
            let p = r.push(Seq::<char>::empty());
            assert(p.drop_last() =~= r);
            assert(join_on(p, sep) =~= t.push(sep));
            assert(t.push(sep) =~= s);
            assert(!Seq::<char>::empty().contains(sep));
            assert forall|k: int| 0 <= k < p.len() implies !(#[trigger] p[k]).contains(sep) by {
                if k < r.len() {
                    assert(p[k] == r[k]);
                }
            }
        } else {
            let w = r.last().push(s.last());
            let p = r.update(r.len() - 1, w);
            if r.len() == 1 {
                assert(join_on(p, sep) == w);
                assert(w =~= s);
            } else {
                assert(p.drop_last() =~= r.drop_last());
                assert(join_on(p, sep) =~= join_on(r, sep).push(s.last()));
                assert(t.push(s.last()) =~= s);
            }
            assert forall|k: int| 0 <= k < p.len() implies !(#[trigger] p[k]).contains(sep) by {
                if k == r.len() - 1 {
                    assert(!r.last().contains(sep));
                    if w.contains(sep) {
                        let j = choose|j: int| 0 <= j < w.len() && w[j] == sep;
                        if j < r.last().len() {
                            assert(r.last()[j] == sep);
                        }
                    }
                } else {
                    assert(p[k] == r[k]);
                }
            }
        }
    }
}

/// `str::split` on a character, collected into owned pieces.
pub fn split_char(s: &str, sep: char) -> (res: Vec<String>)
    ensures
        res@.map_values(|p: String| p@) == split_on(s@, sep),
{
    let n = s.unicode_len();
    let mut pieces: Vec<String> = Vec::new();
    let mut start: usize = 0;
    let mut i: usize = 0;
    proof {
        assert(s@.subrange(0, 0) =~= Seq::<char>::empty());
        assert(pieces@.map_values(|p: String| p@).push(s@.subrange(0, 0)) =~= split_on(
            s@.subrange(0, 0),
            sep,
        ));
    }
    while i < n
        invariant
            n == s@.len(),
            start <= i <= n,
            pieces@.map_values(|p: String| p@).push(s@.subrange(start as int, i as int))
                == split_on(s@.subrange(0, i as int), sep),
        decreases n - i,
    {
        let c = s.get_char(i);
        let ghost before = s@.subrange(0, i as int);
        proof {
            assert(s@.subrange(0, i + 1).drop_last() =~= before);
            assert(s@.subrange(0, i + 1).last() == c);
            lemma_split_on_len(before, sep);
        }
        if c == sep {
            let piece = String::from_str(s.substring_char(start, i));
            let ghost old_views = pieces@.map_values(|p: String| p@);
            pieces.push(piece);
            start = i + 1;
            proof {
                assert(pieces@.map_values(|p: String| p@) =~= old_views.push(piece@));
                assert(s@.subrange(start as int, i + 1) =~= Seq::<char>::empty());
            }
        } else {
            proof {
                assert(s@.subrange(start as int, i + 1) =~= s@.subrange(start as int, i as int).push(c));
                let v = pieces@.map_values(|p: String| p@);
                assert(v.push(s@.subrange(start as int, i + 1)) =~= v.push(
                    s@.subrange(start as int, i as int),
                ).update(v.len() as int, s@.subrange(start as int, i as int).push(c)));
            }
        }
        i = i + 1;
    }
    let last = String::from_str(s.substring_char(start, n));
    let ghost old_views = pieces@.map_values(|p: String| p@);
    pieces.push(last);
    proof {
        assert(pieces@.map_values(|p: String| p@) =~= old_views.push(last@));
        assert(s@.subrange(0, n as int) =~= s@);
    }
    pieces
}

/// `c` is one of the ASCII digits.
pub open spec fn is_digit(c: char) -> bool {
    '0' <= c && c <= '9'
}

/// The number that a run of decimal digits spells.
pub open spec fn digits_value(d: Seq<char>) -> int
    decreases d.len(),
{
    if d.len() == 0 {
        0
    } else {
        digits_value(d.drop_last()) * 10 + (d.last() as int - '0' as int)
    }
}

/// One or more decimal digits and nothing else.
pub open spec fn all_digits(d: Seq<char>) -> bool {
    d.len() > 0 && forall|i: int| 0 <= i < d.len() ==> is_digit(#[trigger] d[i])
}

/// What `s.parse::<i32>()` gives: an optional `+` or `-` followed by one or
/// more digits, with the value in the range of `i32`; `None` otherwise.
pub open spec fn i32_value(s: Seq<char>) -> Option<i32> {
    let negative = s.len() > 0 && s[0] == '-';
    let body = if s.len() > 0 && (s[0] == '+' || s[0] == '-') {
        s.drop_first()
    } else {
        s
    };
    let v = if negative {
        -digits_value(body)
    } else {
        digits_value(body)
    };
    if all_digits(body) && i32::MIN <= v <= i32::MAX {
        Some(v as i32)
    } else {
        None
    }
}

proof fn lemma_digits_value_nonneg(d: Seq<char>)
    requires
        forall|i: int| 0 <= i < d.len() ==> is_digit(#[trigger] d[i]),
    ensures
        digits_value(d) >= 0,
    decreases d.len(),
{
    if d.len() > 0 {
        lemma_digits_value_nonneg(d.drop_last());
        assert(is_digit(d[d.len() - 1]));
    }
}

/// `str::parse::<i32>`.
pub fn parse_i32(s: &str) -> (res: Option<i32>)
    ensures
        res == i32_value(s@),
{
    let n = s.unicode_len();
    let mut negative = false;
    let mut start: usize = 0;
    if n > 0 {
        let c = s.get_char(0);
        if c == '+' || c == '-' {
            start = 1;
            negative = c == '-';
        }
    }
    let ghost body = s@.subrange(start as int, n as int);
    proof {
        if start == 1 {
            assert(body =~= s@.drop_first());
        } else {
            assert(body =~= s@);
        }
    }
    if start == n {
        assert(body.len() == 0);
        assert(!all_digits(body));
        return None;
    }
    let cap: i64 = 2147483649;
    let mut acc: i64 = 0;
    let mut i: usize = start;
    while i < n
        invariant
            n == s@.len(),
            start <= i <= n,
            start < n,
            body == s@.subrange(start as int, n as int),
            body == (if s@.len() > 0 && (s@[0] == '+' || s@[0] == '-') {
                s@.drop_first()
            } else {
                s@
            }),
            negative == (s@.len() > 0 && s@[0] == '-'),
            forall|k: int| start <= k < i ==> is_digit(#[trigger] s@[k]),
            0 <= acc <= cap,
            cap == 2147483649,
            acc == (if digits_value(s@.subrange(start as int, i as int)) < cap {
                digits_value(s@.subrange(start as int, i as int))
            } else {
                cap as int
            }),
        decreases n - i,
    {
        let c = s.get_char(i);
        if !('0' <= c && c <= '9') {
            assert(body[i - start] == c);
            return None;
        }
        let d: i64 = (c as u32 - '0' as u32) as i64;
        let ghost prefix = s@.subrange(start as int, i as int);
        let ghost next = s@.subrange(start as int, i + 1);
        proof {
            assert(next.drop_last() =~= prefix);
            assert(next.last() == c);
            assert forall|k: int| 0 <= k < prefix.len() implies is_digit(#[trigger] prefix[k]) by {
                assert(prefix[k] == s@[start + k]);
            }
            lemma_digits_value_nonneg(prefix);
            assert(digits_value(next) == digits_value(prefix) * 10 + d);
            if digits_value(prefix) >= cap {
                assert(digits_value(prefix) * 10 + d >= cap) by (nonlinear_arith)
                    requires
                        digits_value(prefix) >= cap,
                        cap > 0,
                        d >= 0,
                ;
            }
        }
        if acc >= 214748365 {
            acc = cap;
        } else {
            let t = acc * 10 + d;
            acc = if t < cap {
                t
            } else {
                cap
            };
        }
        i = i + 1;
    }
    proof {
        assert(s@.subrange(start as int, n as int) == body);
        assert forall|k: int| 0 <= k < body.len() implies is_digit(#[trigger] body[k]) by {
            assert(body[k] == s@[start + k]);
        }
    }
    if negative {
        if acc > 2147483648 {
            None
        } else {
            Some((0 - acc) as i32)
        }
    } else {
        if acc > 2147483647 {
            None
        } else {
            Some(acc as i32)
        }
    }
}

/// What `str::to_lowercase` returns (Unicode `Lowercase` mapping).
pub uninterp spec fn lowercase(s: Seq<char>) -> Seq<char>;

/// What `str::to_uppercase` returns (Unicode `Uppercase` mapping).
pub uninterp spec fn uppercase(s: Seq<char>) -> Seq<char>;

/// `str::to_lowercase`.
#[verifier::external_body]
pub(crate) fn to_lower(s: &str) -> (res: String)
    ensures
        res@ == lowercase(s@),
{
    s.to_lowercase()
}

/// `str::to_uppercase`.
#[verifier::external_body]
pub(crate) fn to_upper(s: &str) -> (res: String)
    ensures
        res@ == uppercase(s@),
{
    s.to_uppercase()
}

/// `str::contains` with a character pattern.
pub fn contains_char(s: &str, c: char) -> (res: bool)
    ensures
        res == s@.contains(c),
{
    let n = s.unicode_len();
    let mut i: usize = 0;
    while i < n
        invariant
            n == s@.len(),
            i <= n,
            forall|k: int| 0 <= k < i ==> s@[k] != c,
        decreases n - i,
    {
        if s.get_char(i) == c {
            return true;
        }
        i = i + 1;
    }
    false
}

/// Two texts are equal, compared as owned strings.
pub fn same_text(a: &str, b: &str) -> (res: bool)
    ensures
        res == (a@ == b@),
{
    String::from_str(a) == String::from_str(b)
}


/// A character, with ASCII capitals lowered.
pub open spec fn ascii_lower(c: char) -> char {
    if 'A' <= c && c <= 'Z' {
        ((c as u32) + 32) as char
    } else {
        c
    }
}

/// `s` spells the lower-case ASCII word `w`, ignoring ASCII case.
pub open spec fn spells(s: Seq<char>, w: Seq<char>) -> bool {
    s.len() == w.len() && forall|i: int| 0 <= i < s.len() ==> ascii_lower(#[trigger] s[i]) == w[i]
}

/// An exponent marker.
pub open spec fn is_exp_marker(c: char) -> bool {
    c == 'e' || c == 'E'
}

/// `Digit+ | Digit+ '.' Digit* | Digit* '.' Digit+`: digits with at most one
/// point, and at least one digit.
pub open spec fn is_mantissa(m: Seq<char>) -> bool {
    &&& forall|i: int| 0 <= i < m.len() ==> is_digit(#[trigger] m[i]) || m[i] == '.'
    &&& exists|i: int| 0 <= i < m.len() && is_digit(#[trigger] m[i])
    &&& forall|i: int, j: int| 0 <= i < m.len() && 0 <= j < m.len() && #[trigger] m[i] == '.' && #[trigger] m[j] == '.' ==> i == j
}

/// Digits, after an optional sign.
pub open spec fn is_signed_digits(d: Seq<char>) -> bool {
    if d.len() > 0 && (d[0] == '+' || d[0] == '-') {
        all_digits(d.drop_first())
    } else {
        all_digits(d)
    }
}

/// `Exp ::= 'e' Sign? Digit+`.
pub open spec fn is_exponent(e: Seq<char>) -> bool {
    e.len() > 0 && is_exp_marker(e[0]) && is_signed_digits(e.drop_first())
}

/// `Number ::= Mantissa Exp?`.
pub open spec fn is_number(s: Seq<char>) -> bool {
    exists|k: int| 0 <= k <= s.len() && is_mantissa(#[trigger] s.take(k)) && (k == s.len() || is_exponent(s.skip(k)))
}

/// The text that `str::parse::<f64>` accepts: an optional sign, then `inf`,
/// `infinity`, `nan` (in any case) or a decimal number with an optional exponent.
pub open spec fn float_literal(s: Seq<char>) -> bool {
    let b = if s.len() > 0 && (s[0] == '+' || s[0] == '-') {
        s.drop_first()
    } else {
        s
    };
    spells(b, seq!['i', 'n', 'f']) || spells(b, seq!['i', 'n', 'f', 'i', 'n', 'i', 't', 'y'])
        || spells(b, seq!['n', 'a', 'n']) || is_number(b)
}

fn lower_char(c: char) -> (res: char)
    ensures
        res == ascii_lower(c),
{
    if 'A' <= c && c <= 'Z' {
        ((c as u8) + 32) as char
    } else {
        c
    }
}

fn spells_word(s: &Vec<char>, from: usize, w: &Vec<char>) -> (res: bool)
    requires
        from <= s@.len(),
    ensures
        res == spells(s@.skip(from as int), w@),
{
    let n = s.len();
    if n - from != w.len() {
        return false;
    }
    let mut i: usize = 0;
    while i < w.len()
        invariant
            from <= n == s@.len(),
            n - from == w@.len(),
            i <= w@.len(),
            forall|k: int| 0 <= k < i ==> ascii_lower(s@[from + k]) == w@[k],
        decreases w@.len() - i,
    {
        if lower_char(s[from + i]) != w[i] {
            assert(s@.skip(from as int)[i as int] == s@[from + i]);
            return false;
        }
        i = i + 1;
    }
    assert forall|k: int| 0 <= k < s@.skip(from as int).len() implies ascii_lower(
        #[trigger] s@.skip(from as int)[k],
    ) == w@[k] by {
        assert(s@.skip(from as int)[k] == s@[from + k]);
    }
    true
}

fn check_mantissa(s: &Vec<char>, from: usize, to: usize) -> (res: bool)
    requires
        from <= to <= s@.len(),
    ensures
        res == is_mantissa(s@.subrange(from as int, to as int)),
{
    let ghost m = s@.subrange(from as int, to as int);
    let mut seen_digit = false;
    let mut dot: usize = to;
    let mut i: usize = from;
    while i < to
        invariant
            from <= i <= to <= s@.len(),
            m == s@.subrange(from as int, to as int),
            forall|k: int| from <= k < i ==> is_digit(#[trigger] s@[k]) || s@[k] == '.',
            seen_digit == exists|k: int| from <= k < i && is_digit(#[trigger] s@[k]),
            dot == to ==> forall|k: int| from <= k < i ==> #[trigger] s@[k] != '.',
            dot != to ==> from <= dot < i && s@[dot as int] == '.' && forall|k: int|
                from <= k < i && #[trigger] s@[k] == '.' ==> k == dot,
        decreases to - i,
    {
        let c = s[i];
        if c == '.' {
            if dot != to {
                assert(m[dot - from] == '.' && m[i - from] == '.');
                return false;
            }
            dot = i;
        } else if '0' <= c && c <= '9' {
            seen_digit = true;
        } else {
            assert(m[i - from] == c);
            return false;
        }
        i = i + 1;
    }
    if !seen_digit {
        assert forall|k: int| 0 <= k < m.len() implies !is_digit(#[trigger] m[k]) by {
            assert(m[k] == s@[from + k]);
        }
        return false;
    }
    proof {
        let k0 = choose|k: int| from <= k < i && is_digit(#[trigger] s@[k]);
        assert(m[k0 - from] == s@[k0]);
        assert forall|k: int| 0 <= k < m.len() implies is_digit(#[trigger] m[k]) || m[k] == '.' by {
            assert(m[k] == s@[from + k]);
        }
        assert forall|a: int, b: int|
            0 <= a < m.len() && 0 <= b < m.len() && #[trigger] m[a] == '.' && #[trigger] m[b] == '.'
            implies a == b by {
            assert(m[a] == s@[from + a]);
            assert(m[b] == s@[from + b]);
        }
    }
    true
}

fn check_digits(s: &Vec<char>, from: usize) -> (res: bool)
    requires
        from <= s@.len(),
    ensures
        res == all_digits(s@.skip(from as int)),
{
    let n = s.len();
    if from == n {
        return false;
    }
    let mut i: usize = from;
    while i < n
        invariant
            from <= i <= n == s@.len(),
            forall|k: int| from <= k < i ==> is_digit(#[trigger] s@[k]),
        decreases n - i,
    {
        if !('0' <= s[i] && s[i] <= '9') {
            assert(s@.skip(from as int)[i - from] == s@[i as int]);
            return false;
        }
        i = i + 1;
    }
    assert forall|k: int| 0 <= k < s@.skip(from as int).len() implies is_digit(
        #[trigger] s@.skip(from as int)[k],
    ) by {
        assert(s@.skip(from as int)[k] == s@[from + k]);
    }
    true
}

/// Whether `str::parse::<f64>` accepts `s`.
pub fn is_float_literal(s: &str) -> (res: bool)
    ensures
        res == float_literal(s@),
{
    let v = chars_of(s);
    let n = v.len();
    let mut from: usize = 0;
    if n > 0 && (v[0] == '+' || v[0] == '-') {
        from = 1;
    }
    let ghost b = v@.skip(from as int);
    proof {
        if from == 1 {
            assert(b =~= s@.drop_first());
        } else {
            assert(b =~= s@);
        }
    }
    let inf = vec!['i', 'n', 'f'];
    let infinity = vec!['i', 'n', 'f', 'i', 'n', 'i', 't', 'y'];
    let nan = vec!['n', 'a', 'n'];
    if spells_word(&v, from, &inf) || spells_word(&v, from, &infinity) || spells_word(&v, from, &nan) {
        return true;
    }
    // The mantissa runs up to the first exponent marker.
    let mut p: usize = from;
    while p < n && !(v[p] == 'e' || v[p] == 'E')
        invariant
            from <= p <= n == v@.len(),
            forall|k: int| from <= k < p ==> !is_exp_marker(#[trigger] v@[k]),
        decreases n - p,
    {
        p = p + 1;
    }
    let ok_mantissa = check_mantissa(&v, from, p);
    let ok = if p == n {
        ok_mantissa
    } else {
        ok_mantissa && check_signed_exponent(&v, p)
    };
    proof {
        let q = p - from;
        assert(b.take(q) =~= v@.subrange(from as int, p as int));
        if p < n {
            assert(b.skip(q) =~= v@.skip(p as int));
        }
        if ok {
            assert(0 <= q <= b.len() && is_mantissa(b.take(q)) && (q == b.len() || is_exponent(b.skip(q))));
        } else {
            assert forall|k: int| 0 <= k <= b.len() && is_mantissa(#[trigger] b.take(k)) implies !(k
                == b.len() || is_exponent(b.skip(k))) by {
                if k > q {
                    assert(b.take(k)[q] == v@[p as int]);
                    assert(is_exp_marker(b.take(k)[q]));
                } else if k < q {
                    assert(b.skip(k)[0] == v@[from + k]);
                } else {
                    assert(b.take(k) =~= v@.subrange(from as int, p as int));
                }
            }
        }
    }
    ok
}

fn check_signed_exponent(v: &Vec<char>, p: usize) -> (res: bool)
    requires
        p < v@.len(),
    ensures
        res == is_exponent(v@.skip(p as int)),
{
    let n = v.len();
    let ghost e = v@.skip(p as int);
    assert(e[0] == v@[p as int]);
    if !(v[p] == 'e' || v[p] == 'E') {
        return false;
    }
    let ghost d = e.drop_first();
    assert(d =~= v@.skip(p + 1));
    if p + 1 < n && (v[p + 1] == '+' || v[p + 1] == '-') {
        assert(d[0] == v@[p + 1]);
        assert(d.drop_first() =~= v@.skip(p + 2));
        check_digits(v, p + 2)
    } else {
        check_digits(v, p + 1)
    }
}

} // verus!
