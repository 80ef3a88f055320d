//! String operations that pick class names, id names and `@value` names out of CSS text.
use crate::matching::{all_matches, erase_all, erased, find_all, find_first, first_match, pieces, split_by, views};
use crate::strings::{
    contains_char, lemma_split_on_len, lemma_split_on_single, lowercase, split_char, split_on, to_lower, to_upper, trim_text,
    trimmed, uppercase,
};
use vstd::prelude::*;
use vstd::string::*;

verus! {

/// A comment: `/*`, the shortest run of any characters, `*/`.
pub const COMMENT_PATTERN: &'static str = r"(?s)/\*(.*?)\*/";

/// What is stripped from a selector to leave its bare name.
pub const MODIFIER_PATTERN: &'static str = r"[\.\#]|@value\s|\s|;";

/// The head of a rule: leading `.`/`#`, the name, the opening braces; or an `@value` and its name.
pub const SELECTOR_PATTERN: &'static str = r"^[\.\#]+(.+?)\{+|^@value\s\S*";

/// A rule that starts a line with `.` or `#` and runs to the first `}`, or an `@value` up to `;`.
pub const BLOCK_PATTERN: &'static str = r"(?ms)^[\.\#]{1}(.+?)\{{1}(.*?)\}{1}|^@value+(.+?);";

/// One comma.
pub const COMMA_PATTERN: &'static str = r",+?";

/// The text without its last character.
pub open spec fn without_last(s: Seq<char>) -> Seq<char> {
    if s.len() == 0 {
        s
    } else {
        s.drop_last()
    }
}

/// The first character (empty for the empty text).
pub open spec fn first_part(s: Seq<char>) -> Seq<char> {
    if s.len() == 0 {
        s
    } else {
        s.subrange(0, 1)
    }
}

/// Everything after the first character.
pub open spec fn rest_part(s: Seq<char>) -> Seq<char> {
    if s.len() == 0 {
        s
    } else {
        s.subrange(1, s.len() as int)
    }
}

/// The bare name of a selector piece: the part before the first `:`, with
/// `.`, `#`, `@value` followed by whitespace, whitespace and `;` removed.
pub open spec fn bare_name(s: Seq<char>) -> Seq<char> {
    if s.contains(':') {
        erased(MODIFIER_PATTERN@, split_on(s, ':')[0])
    } else {
        erased(MODIFIER_PATTERN@, s)
    }
}

/// Law: a name without dashes comes out of the camelCase conversion lowered, its
/// first character and the rest each by the Unicode lower-case mapping.
pub proof fn lemma_camel_case_single_word(s: Seq<char>)
    requires
        !s.contains('-'),
    ensures
        camel_case(s) == lowercase(first_part(s)) + lowercase(rest_part(s)),
{
    lemma_split_on_single(s, '-');
    let words = split_on(s, '-');
    assert(words.drop_last() =~= Seq::<Seq<char>>::empty());
    assert(camel_words(words.drop_last()) =~= Seq::<char>::empty());
    assert(camel_words(words) =~= camel_word(s, true));
}

/// A dash and a word without dashes after a text add that word to its pieces.
proof fn lemma_split_on_append(s: Seq<char>, w: Seq<char>)
    requires
        !w.contains('-'),
    ensures
        split_on(s.push('-') + w, '-') == split_on(s, '-').push(w),
    decreases w.len(),
{
    if w.len() == 0 {
        assert(s.push('-') + w =~= s.push('-'));
        assert((s.push('-')).drop_last() =~= s);
        assert(s.push('-').last() == '-');
        assert(w =~= Seq::<char>::empty());
        assert(split_on(s.push('-'), '-') == split_on(s, '-').push(Seq::<char>::empty()));
    } else {
        let v = w.drop_last();
        assert(!v.contains('-')) by {
            if v.contains('-') {
                let k = choose|k: int| 0 <= k < v.len() && v[k] == '-';
                assert(w[k] == '-');
            }
        }
        lemma_split_on_append(s, v);
        let t = s.push('-') + w;
        assert(t.drop_last() =~= s.push('-') + v);
        assert(t.last() == w.last());
        assert(w.last() != '-') by {
            assert(w[w.len() - 1] == w.last());
        }
        assert(v.push(w.last()) =~= w);
        let r = split_on(s, '-').push(v);
        assert(split_on(t.drop_last(), '-') == r);
        assert(r.len() - 1 == split_on(s, '-').len());
        assert(r.last() == v);
        assert(split_on(t, '-') == r.update(r.len() - 1, r.last().push(t.last())));
        assert(r.update(r.len() - 1, w) =~= split_on(s, '-').push(w));
    }
}

/// Law: a dash and a word without dashes appended to a name add that word to
/// its camelCase form with its first character upper case and the rest lower case.
pub proof fn lemma_camel_case_append(s: Seq<char>, w: Seq<char>)
    requires
        !w.contains('-'),
    ensures
        camel_case(s + "-"@ + w) == camel_case(s) + uppercase(first_part(w)) + lowercase(rest_part(w)),
{
    reveal_strlit("-");
    assert(s + "-"@ =~= s.push('-'));
    lemma_split_on_append(s, w);
    lemma_split_on_len(s, '-');
    let words = split_on(s, '-').push(w);
    assert(words.drop_last() =~= split_on(s, '-'));
    assert(camel_words(words) == camel_words(split_on(s, '-')) + camel_word(w, false));
    assert(camel_word(w, false) == uppercase(first_part(w)) + lowercase(rest_part(w)));
    assert(camel_case(s) + camel_word(w, false) =~= camel_case(s) + uppercase(first_part(w)) + lowercase(
        rest_part(w),
    ));
}

/// The selector heads that the rules found in a text give, trimmed and without their last character.
pub open spec fn selectors_from(found: Seq<Seq<char>>) -> Seq<Seq<char>>
    decreases found.len(),
{
    if found.len() == 0 {
        Seq::empty()
    } else {
        let r = selectors_from(found.drop_last());
        match first_match(SELECTOR_PATTERN@, found.last()) {
            Some(m) => r.push(trimmed(without_last(m))),
            None => r,
        }
    }
}

/// A comma separated list of selectors as separate, trimmed selectors; the text
/// itself, untrimmed, where it holds no comma.
pub open spec fn selector_list(s: Seq<char>, parts: Seq<Seq<char>>) -> Seq<Seq<char>> {
    if parts.len() > 1 {
        parts.map_values(|p: Seq<char>| trimmed(p))
    } else {
        seq![s]
    }
}

/// One dash separated word in camelCase: the first word all lower case, every
/// other word with its first character upper case and the rest lower case.
pub open spec fn camel_word(w: Seq<char>, first: bool) -> Seq<char> {
    if first {
        lowercase(first_part(w)) + lowercase(rest_part(w))
    } else {
        uppercase(first_part(w)) + lowercase(rest_part(w))
    }
}

/// The camelCase form of a list of words.
pub open spec fn camel_words(words: Seq<Seq<char>>) -> Seq<char>
    decreases words.len(),
{
    if words.len() == 0 {
        Seq::empty()
    } else {
        camel_words(words.drop_last()) + camel_word(words.last(), words.len() == 1)
    }
}

/// kebab-case to camelCase.
pub open spec fn camel_case(s: Seq<char>) -> Seq<char> {
    camel_words(split_on(s, '-'))
}

/// The selectors of the rules `found` in a text: for each rule whose start
/// matches `SELECTOR_PATTERN`, the match without its last character, trimmed.
pub fn selectors_in(found: &Vec<String>) -> (res: Vec<String>)
    ensures
        views(res@) == selectors_from(views(found@)),
{
    let mut out: Vec<String> = Vec::new();
    let mut i: usize = 0;
    while i < found.len()
        invariant
            i <= found@.len(),
            views(out@) == selectors_from(views(found@).subrange(0, i as int)),
        decreases found@.len() - i,
    {
        let cid = &found[i];
        let ghost before = views(found@).subrange(0, i as int);
        let ghost after = views(found@).subrange(0, i + 1);
        proof {
            assert(after.drop_last() =~= before);
            assert(after.last() == cid@);
        }
        match find_first(SELECTOR_PATTERN, cid.as_str()) {
            Some(m) => {
                let t = String::from_str(trim_text(m.as_str().remove_last()));
                let ghost old_views = views(out@);
                out.push(t);
                assert(views(out@) =~= old_views.push(t@));
            },
            None => {},
        }
        i = i + 1;
    }
    assert(views(found@).subrange(0, found@.len() as int) =~= views(found@));
    out
}

/// The selectors of a selector list, given the pieces between its commas.
pub fn selectors_of_list(s: &str, parts: Vec<String>) -> (res: Vec<String>)
    ensures
        views(res@) == selector_list(s@, views(parts@)),
{
    let mut out: Vec<String> = Vec::new();
    if parts.len() > 1 {
        let mut i: usize = 0;
        while i < parts.len()
            invariant
                i <= parts@.len(),
                views(out@) == views(parts@).subrange(0, i as int).map_values(
                    |p: Seq<char>| trimmed(p),
                ),
            decreases parts@.len() - i,
        {
            let t = String::from_str(trim_text(parts[i].as_str()));
            let ghost old_views = views(out@);
            out.push(t);
            assert(views(out@) =~= old_views.push(t@));
            assert(views(parts@)[i as int] == parts@[i as int]@);
            assert(views(out@) =~= views(parts@).subrange(0, i + 1).map_values(
                |p: Seq<char>| trimmed(p),
            ));
            i = i + 1;
        }
        assert(views(parts@).subrange(0, parts@.len() as int) =~= views(parts@));
    } else {
        out.push(String::from_str(s));
        assert(views(out@) =~= seq![s@]);
    }
    out
}

/// The CSS name operations.
pub trait StrExt {
    fn split_first_char(&self) -> (&str, &str);

    fn remove_last(&self) -> &str;

    fn remove_comments(&self) -> String;

    fn remove_modifiers(&self) -> String;

    fn get_classes_or_ids(&self) -> Vec<String>;

    fn find_classes_or_ids(&self) -> Vec<String>;

    fn split_classes_ids(&self) -> Vec<String>;

    fn camel_case_converter(&self) -> String;
}

impl StrExt for str {
    /// The first character and the rest; `("", self)` for the empty string.
    fn split_first_char(&self) -> (res: (&str, &str))
        ensures
            res.0@ == first_part(self@),
            res.1@ == rest_part(self@),
            res.0@ + res.1@ == self@,
    {
        let n = self.unicode_len();
        if n == 0 {
            (self.substring_char(0, 0), self)
        } else {
            let res = (self.substring_char(0, 1), self.substring_char(1, n));
            assert(res.0@ + res.1@ =~= self@);
            res
        }
    }

    /// The text without its last character.
    fn remove_last(&self) -> (res: &str)
        ensures
            res@ == without_last(self@),
    {
        let n = self.unicode_len();
        if n == 0 {
            self
        } else {
            self.substring_char(0, n - 1)
        }
    }

    /// The text with every `/* ... */` comment removed.
    fn remove_comments(&self) -> (res: String)
        ensures
            res@ == erased(COMMENT_PATTERN@, self@),
    {
        erase_all(COMMENT_PATTERN, self)
    }

    /// The bare name of a selector piece.
    fn remove_modifiers(&self) -> (res: String)
        ensures
            res@ == bare_name(self@),
    {
        if contains_char(self, ':') {
            let parts = split_char(self, ':');
            proof {
                lemma_split_on_len(self@, ':');
                assert(parts@[0]@ == split_on(self@, ':')[0]);
            }
            erase_all(MODIFIER_PATTERN, parts[0].as_str())
        } else {
            erase_all(MODIFIER_PATTERN, self)
        }
    }

    /// The selectors of the rules in the text, in order.
    fn get_classes_or_ids(&self) -> (res: Vec<String>)
        ensures
            views(res@) == selectors_from(all_matches(BLOCK_PATTERN@, self@)),
    {
        let found = self.find_classes_or_ids();
        selectors_in(&found)
    }

    /// The rules in the text: each `.`/`#` rule up to its first `}`, each `@value` up to its `;`.
    fn find_classes_or_ids(&self) -> (res: Vec<String>)
        ensures
            views(res@) == all_matches(BLOCK_PATTERN@, self@),
    {
        find_all(BLOCK_PATTERN, self)
    }

    /// The selectors of a comma separated selector list.
    fn split_classes_ids(&self) -> (res: Vec<String>)
        ensures
            views(res@) == selector_list(self@, pieces(COMMA_PATTERN@, self@)),
    {
        let parts = split_by(COMMA_PATTERN, self);
        selectors_of_list(self, parts)
    }

    /// kebab-case to camelCase.
    fn camel_case_converter(&self) -> (res: String)
        ensures
            res@ == camel_case(self@),
    {
        let words = split_char(self, '-');
        let mut parsed = String::new();
        let mut i: usize = 0;
        while i < words.len()
            invariant
                i <= words@.len(),
                views(words@) == split_on(self@, '-'),
                parsed@ == camel_words(views(words@).subrange(0, i as int)),
            decreases words@.len() - i,
        {
            let (first_char, remainder) = words[i].as_str().split_first_char();
            let head = if i == 0 {
                to_lower(first_char)
            } else {
                to_upper(first_char)
            };
            let tail = to_lower(remainder);
            let piece = head.concat(tail.as_str());
            proof {
                let ws = views(words@).subrange(0, i + 1);
                assert(ws.drop_last() =~= views(words@).subrange(0, i as int));
                assert(ws.last() == words@[i as int]@);
            }
            parsed = parsed.concat(piece.as_str());
            i = i + 1;
        }
        assert(views(words@).subrange(0, words@.len() as int) =~= views(words@));
        parsed
    }
}

} // verus!
