//! Deciding whether a declaration file must be (re)written, and what it holds.
use crate::matching::{all_matches, find_all, views};
use crate::strings::{has_text, occurs_at};
use crate::parse_and_printout::parse::{dedup, insert_unique, lemma_dedup};
use vstd::prelude::*;
use vstd::string::*;

verus! {

/// A declaration line of a declaration file: `readonly '<name>': <type>;`.
pub const DECLARATION_PATTERN: &'static str = r"readonly '\S*': \w*;";

/// The lines of the object type, each as `" <line>\n"`.
pub open spec fn body_of(data: Seq<Seq<char>>) -> Seq<char>
    decreases data.len(),
{
    if data.len() == 0 {
        Seq::empty()
    } else {
        body_of(data.drop_last()) + " "@ + data.last() + "\n"@
    }
}

/// The text of a declaration file that declares `data`.
pub open spec fn declaration_file(data: Seq<Seq<char>>) -> Seq<char> {
    "declare const styles: {\n"@ + body_of(data) + "};\nexport default styles;"@
}

/// `line` is one of the declarations `decls`, each followed by `suffix`.
pub open spec fn declared(line: Seq<char>, decls: Seq<Seq<char>>, suffix: Seq<char>) -> bool {
    exists|j: int| 0 <= j < decls.len() && line == decls[j] + suffix
}

/// Some line of `data` is not among the declarations already there.
pub open spec fn needs_writing(data: Seq<Seq<char>>, decls: Seq<Seq<char>>, suffix: Seq<char>) -> bool {
    exists|i: int| 0 <= i < data.len() && !declared(data[i], decls, suffix)
}

/// Law: a declaration file that does not exist yet is written exactly when there
/// is a line to declare, and one that already declares every line is left alone.
pub proof fn lemma_when_written(data: Seq<Seq<char>>, decls: Seq<Seq<char>>, suffix: Seq<char>)
    ensures
        needs_writing(data, Seq::empty(), suffix) <==> data.len() > 0,
        (forall|i: int| 0 <= i < data.len() ==> declared(#[trigger] data[i], decls, suffix)) ==> !needs_writing(
            data,
            decls,
            suffix,
        ),
{
    if data.len() > 0 {
        assert(!declared(data[0], Seq::empty(), suffix));
    }
}

/// Law: a declaration file is rewritten as soon as any one of its lines, wherever
/// it stands, is not yet declared in it, and it stays so when more lines are
/// added before or after.
pub proof fn lemma_any_undeclared_line_writes(
    data: Seq<Seq<char>>,
    decls: Seq<Seq<char>>,
    suffix: Seq<char>,
    before: Seq<Seq<char>>,
    after: Seq<Seq<char>>,
)
    ensures
        forall|i: int| 0 <= i < data.len() && !declared(#[trigger] data[i], decls, suffix) ==> needs_writing(
            data,
            decls,
            suffix,
        ),
        needs_writing(data, decls, suffix) ==> needs_writing(before + data + after, decls, suffix),
        !needs_writing(data, decls, suffix) ==> forall|i: int| 0 <= i < data.len() ==> declared(#[trigger] data[i], decls, suffix),
{
    if needs_writing(data, decls, suffix) {
        let i = choose|i: int| 0 <= i < data.len() && !declared(data[i], decls, suffix);
        let all = before + data + after;
        assert(all[before.len() + i] == data[i]);
    }
}

proof fn lemma_occurs_in_sum(a: Seq<char>, b: Seq<char>, n: Seq<char>, i: int)
    requires
        occurs_at(b, n, i),
    ensures
        occurs_at(a + b, n, a.len() + i),
        occurs_at(b + a, n, i),
{
    assert((a + b).subrange(a.len() + i, a.len() + i + n.len()) =~= b.subrange(i, i + n.len()));
    assert((b + a).subrange(i, i + n.len()) =~= b.subrange(i, i + n.len()));
}

proof fn lemma_body_holds_lines(data: Seq<Seq<char>>)
    ensures
        forall|k: int| 0 <= k < data.len() ==> has_text(body_of(data), #[trigger] data[k]),
    decreases data.len(),
{
    if data.len() > 0 {
        let t = data.drop_last();
        lemma_body_holds_lines(t);
        let front = body_of(t) + " "@;
        let d = data.last();
        assert forall|k: int| 0 <= k < data.len() implies has_text(body_of(data), #[trigger] data[k]) by {
            if k < data.len() - 1 {
                assert(data[k] == t[k]);
                let i = choose|i: int| occurs_at(body_of(t), t[k], i);
                lemma_occurs_in_sum(" "@ + d + "\n"@, body_of(t), t[k], i);
                assert(body_of(t) + (" "@ + d + "\n"@) =~= body_of(data));
            } else {
                assert(occurs_at(d, d, 0)) by {
                    assert(d.subrange(0, d.len() as int) =~= d);
                }
                lemma_occurs_in_sum(front, d, d, 0);
                lemma_occurs_in_sum("\n"@, front + d, d, front.len() as int);
                assert(front + d + "\n"@ =~= body_of(data));
                assert(occurs_at(body_of(data), d, front.len() as int));
            }
        }
    }
}

/// Law: every line of a declaration file's data appears in the file's text.
pub proof fn lemma_file_declares_all(data: Seq<Seq<char>>)
    ensures
        forall|k: int| 0 <= k < data.len() ==> has_text(declaration_file(data), #[trigger] data[k]),
{
    lemma_body_holds_lines(data);
    let head = "declare const styles: {\n"@;
    let tail = "};\nexport default styles;"@;
    assert forall|k: int| 0 <= k < data.len() implies has_text(declaration_file(data), #[trigger] data[k]) by {
        let i = choose|i: int| occurs_at(body_of(data), data[k], i);
        lemma_occurs_in_sum(head, body_of(data), data[k], i);
        lemma_occurs_in_sum(tail, head + body_of(data), data[k], head.len() + i);
        assert(declaration_file(data) == head + body_of(data) + tail);
    }
}

/// The declarations that `pattern` finds in an existing file; none where there is no file.
pub open spec fn existing_declarations(pattern: Seq<char>, existing: Option<Seq<char>>) -> Seq<Seq<char>> {
    match existing {
        Some(text) => all_matches(pattern, text),
        None => Seq::empty(),
    }
}

/// What to do with one declaration file.
pub struct OutputPlan {
    /// Write `contents` to the file.
    pub write: bool,
    /// Announce that the file is being created. The announcement is tied to a
    /// new file whose declaration count is `!0` (every bit set), so no list that
    /// fits in memory brings it.
    pub announce_creation: bool,
    /// The full text of the declaration file.
    pub contents: String,
}

/// The text of the declaration file for `data`.
pub fn render_declarations(data: &Vec<String>) -> (res: String)
    ensures
        res@ == declaration_file(views(data@)),
{
    let mut intermediate = String::new();
    let mut i: usize = 0;
    while i < data.len()
        invariant
            i <= data@.len(),
            intermediate@ == body_of(views(data@).subrange(0, i as int)),
        decreases data@.len() - i,
    {
        proof {
            let next = views(data@).subrange(0, i + 1);
            assert(next.drop_last() =~= views(data@).subrange(0, i as int));
            assert(next.last() == data@[i as int]@);
        }
        intermediate = intermediate.concat(" ").concat(data[i].as_str()).concat("\n");
        i = i + 1;
    }
    assert(views(data@).subrange(0, data@.len() as int) =~= views(data@));
    String::from_str("declare const styles: {\n").concat(intermediate.as_str()).concat(
        "};\nexport default styles;",
    )
}

/// Whether `line` equals one of `decls` followed by `suffix`.
pub fn is_declared(line: &String, decls: &Vec<String>, suffix: &str) -> (res: bool)
    ensures
        res == declared(line@, views(decls@), suffix@),
{
    let mut j: usize = 0;
    while j < decls.len()
        invariant
            j <= decls@.len(),
            forall|k: int| 0 <= k < j ==> line@ != decls@[k]@ + suffix@,
        decreases decls@.len() - j,
    {
        let formatted_line = decls[j].clone().concat(suffix);
        if *line == formatted_line {
            assert(views(decls@)[j as int] == decls@[j as int]@);
            return true;
        }
        j = j + 1;
    }
    assert forall|k: int| 0 <= k < views(decls@).len() implies line@ != views(decls@)[k] + suffix@ by {
        assert(views(decls@)[k] == decls@[k]@);
    }
    false
}

/// Whether some line of `data` is missing from `decls`.
pub fn has_unmatched(data: &Vec<String>, decls: &Vec<String>, suffix: &str) -> (res: bool)
    ensures
        res == needs_writing(views(data@), views(decls@), suffix@),
{
    let mut i: usize = 0;
    while i < data.len()
        invariant
            i <= data@.len(),
            forall|k: int| 0 <= k < i ==> declared(#[trigger] views(data@)[k], views(decls@), suffix@),
        decreases data@.len() - i,
    {
        if !is_declared(&data[i], decls, suffix) {
            assert(!declared(views(data@)[i as int], views(decls@), suffix@));
            return true;
        }
        i = i + 1;
    }
    false
}

/// The distinct declarations in the text of a declaration file.
pub fn find_declarations(text: &str) -> (res: Vec<String>)
    ensures
        views(res@) == dedup(all_matches(DECLARATION_PATTERN@, text@)),
        views(res@).no_duplicates(),
        forall|x: Seq<char>|
            views(res@).contains(x) <==> all_matches(DECLARATION_PATTERN@, text@).contains(x),
{
    let found = find_all(DECLARATION_PATTERN, text);
    let set = distinct(found);
    proof {
        lemma_dedup(all_matches(DECLARATION_PATTERN@, text@));
    }
    set
}

/// The distinct strings of `v`, each where it first occurs.
pub fn distinct(v: Vec<String>) -> (res: Vec<String>)
    ensures
        views(res@) == dedup(views(v@)),
{
    let mut out: Vec<String> = Vec::new();
    let mut i: usize = 0;
    while i < v.len()
        invariant
            i <= v@.len(),
            views(out@) == dedup(views(v@).subrange(0, i as int)),
        decreases v@.len() - i,
    {
        proof {
            let next = views(v@).subrange(0, i + 1);
            assert(next.drop_last() =~= views(v@).subrange(0, i as int));
            assert(next.last() == v@[i as int]@);
        }
        insert_unique(&mut out, v[i].clone());
        i = i + 1;
    }
    assert(views(v@).subrange(0, v@.len() as int) =~= views(v@));
    out
}

/// The plan for one declaration file, given the declaration lines of its CSS
/// file and the text of the declaration file where one exists: rewrite it when
/// some line is not declared there yet.
pub fn print_files(data_set: &Vec<String>, existing: Option<&String>) -> (res: OutputPlan)
    ensures
        res.contents@ == declaration_file(views(data_set@)),
        res.write == needs_writing(
            views(data_set@),
            existing_declarations(
                DECLARATION_PATTERN@,
                match existing {
                    Some(t) => Some(t@),
                    None => None,
                },
            ),
            Seq::empty(),
        ),
        res.announce_creation == (existing is None && data_set@.len() == usize::MAX),
{
    let announce_creation = match existing {
        // A new file is announced when `!len == 0`, that is when every bit of the length is set.
        None => data_set.len() == usize::MAX,
        Some(_) => false,
    };
    let found = match existing {
        Some(text) => find_all(DECLARATION_PATTERN, text.as_str()),
        None => Vec::new(),
    };
    assert(views(found@) =~= existing_declarations(
        DECLARATION_PATTERN@,
        match existing {
            Some(t) => Some(t@),
            None => None,
        },
    ));
    let write = has_unmatched(data_set, &found, "");
    assert(""@ =~= Seq::<char>::empty()) by {
        reveal_strlit("");
    }
    OutputPlan { write, announce_creation, contents: render_declarations(data_set) }
}

} // verus!
