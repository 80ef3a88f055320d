//! The first form of the declaration generator: every `.name` or `#name` that
//! starts a line becomes a declaration.
use crate::matching::{all_matches, erase_all, erased, find_all, views};
use crate::parse_and_printout::parse::{dedup, declaration_line, format_line, lemma_dedup};
use crate::parse_and_printout::print::{
    declaration_file, distinct, has_unmatched, needs_writing, render_declarations, OutputPlan,
};
use crate::run::parse_and_printout::{FilePlan, SourceFile, text_view};
use vstd::prelude::*;
use vstd::string::*;

verus! {

/// A class or id name at the start of a line, with its `.` or `#`.
pub const CLASS_OR_ID_PATTERN: &'static str = r"(?m)^[\.\#]\w*";

/// A declaration in a declaration file, without its `;`.
pub const DECLARATION_PATTERN: &'static str = r"readonly '\w*': \w*";

/// The `.` and `#` that mark a class or an id.
pub const MARKER_PATTERN: &'static str = r"[\.\#]";

/// The generator of declaration files.
pub struct ParseRes {}

/// The declaration lines of a list of class and id names.
pub open spec fn lines_of(names: Seq<Seq<char>>) -> Seq<Seq<char>> {
    names.map_values(|n: Seq<char>| declaration_line(erased(MARKER_PATTERN@, n)))
}

/// The distinct class and id names that start lines of `text`.
pub fn find_classes_or_ids(text: &str) -> (res: Vec<String>)
    ensures
        views(res@) == dedup(all_matches(CLASS_OR_ID_PATTERN@, text@)),
        views(res@).no_duplicates(),
        forall|x: Seq<char>|
            views(res@).contains(x) <==> all_matches(CLASS_OR_ID_PATTERN@, text@).contains(x),
{
    let found = find_all(CLASS_OR_ID_PATTERN, text);
    proof {
        lemma_dedup(all_matches(CLASS_OR_ID_PATTERN@, text@));
    }
    distinct(found)
}

/// The declarations, without their `;`, in the text of a declaration file.
pub fn find_declarations(text: &str) -> (res: Vec<String>)
    ensures
        views(res@) == all_matches(DECLARATION_PATTERN@, text@),
{
    find_all(DECLARATION_PATTERN, text)
}

/// The declaration lines of a CSS text and the name of its declaration file:
/// each class or id name, without its marks, as `readonly '<name>': string;`.
pub fn get_file_data(path: &String, contents: &str) -> (res: (Vec<String>, String))
    ensures
        views(res.0@) == lines_of(dedup(all_matches(CLASS_OR_ID_PATTERN@, contents@))),
        res.1@ == path@ + ".d.ts"@,
{
    let names = find_classes_or_ids(contents);
    let mut out_names: Vec<String> = Vec::new();
    let mut i: usize = 0;
    while i < names.len()
        invariant
            i <= names@.len(),
            views(out_names@) == lines_of(views(names@).subrange(0, i as int)),
        decreases names@.len() - i,
    {
        let parsed_name = erase_all(MARKER_PATTERN, names[i].as_str());
        let out_name = format_line(parsed_name);
        let ghost before = views(out_names@);
        out_names.push(out_name);
        assert(views(out_names@) =~= before.push(out_name@));
        assert(views(names@)[i as int] == names@[i as int]@);
        assert(views(out_names@) =~= lines_of(views(names@).subrange(0, i + 1)));
        i = i + 1;
    }
    assert(views(names@).subrange(0, names@.len() as int) =~= views(names@));
    (out_names, path.clone().concat(".d.ts"))
}

/// The plan for one declaration file: announce it where it does not exist yet,
/// and rewrite it when some line, with its `;`, is not declared there yet.
pub fn print_files(data_vec: &Vec<String>, existing: Option<&String>) -> (res: OutputPlan)
    ensures
        res.contents@ == declaration_file(views(data_vec@)),
        res.announce_creation == existing is None,
        res.write == needs_writing(
            views(data_vec@),
            match existing {
                Some(t) => all_matches(DECLARATION_PATTERN@, t@),
                None => Seq::empty(),
            },
            ";"@,
        ),
{
    let found = match existing {
        Some(text) => find_declarations(text.as_str()),
        None => Vec::new(),
    };
    assert(views(found@) =~= match existing {
        Some(t) => all_matches(DECLARATION_PATTERN@, t@),
        None => Seq::empty(),
    });
    let write = has_unmatched(data_vec, &found, ";");
    OutputPlan { write, announce_creation: existing.is_none(), contents: render_declarations(data_vec) }
}

/// The plan of each CSS file: its declaration file is `<path>.d.ts`.
pub fn parse_files(path_names: &Vec<SourceFile>) -> (res: Vec<FilePlan>)
    ensures
        res@.len() == path_names@.len(),
        forall|k: int|
            0 <= k < res@.len() ==> {
                let src = path_names@[k];
                let data = lines_of(dedup(all_matches(CLASS_OR_ID_PATTERN@, src.css@)));
                let existing = text_view(src.existing_output);
                &&& (#[trigger] res@[k]).outfile_name@ == src.path@ + ".d.ts"@
                &&& res@[k].plan matches Some(p) && p.contents@ == declaration_file(data)
                    && p.announce_creation == existing is None && p.write == needs_writing(
                    data,
                    match existing {
                        Some(t) => all_matches(DECLARATION_PATTERN@, t),
                        None => Seq::empty(),
                    },
                    ";"@,
                )
            },
{
    let mut out: Vec<FilePlan> = Vec::new();
    let mut i: usize = 0;
    while i < path_names.len()
        invariant
            i <= path_names@.len(),
            out@.len() == i,
            forall|k: int|
                0 <= k < i ==> {
                    let src = path_names@[k];
                    let data = lines_of(dedup(all_matches(CLASS_OR_ID_PATTERN@, src.css@)));
                    let existing = text_view(src.existing_output);
                    &&& (#[trigger] out@[k]).outfile_name@ == src.path@ + ".d.ts"@
                    &&& out@[k].plan matches Some(p) && p.contents@ == declaration_file(data)
                        && p.announce_creation == existing is None && p.write == needs_writing(
                        data,
                        match existing {
                            Some(t) => all_matches(DECLARATION_PATTERN@, t),
                            None => Seq::empty(),
                        },
                        ";"@,
                    )
                },
        decreases path_names@.len() - i,
    {
        let src = &path_names[i];
        let (data_vec, outfile_name) = get_file_data(&src.path, src.css.as_str());
        let existing = match &src.existing_output {
            Some(t) => Some(t),
            None => None,
        };
        let plan = print_files(&data_vec, existing);
        out.push(FilePlan { outfile_name, plan: Some(plan) });
        i = i + 1;
    }
    out
}

} // verus!
