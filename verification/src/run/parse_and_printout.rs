//! Planning the declaration files of a batch of CSS files.
pub use crate::parse_and_printout::parse;

use crate::matching::{all_matches, find_all, views};
use crate::parse_and_printout::parse::{
    declaration_lines, dedup, lemma_dedup, outfile_for, parse_file_data, ModFlags,
};
use crate::parse_and_printout::print::{
    declaration_file, distinct, existing_declarations, has_unmatched, needs_writing,
    render_declarations, OutputPlan,
};
use crate::strings::{contains_text, has_text};
use vstd::prelude::*;
use vstd::string::*;

verus! {

/// A declaration in a declaration file, without its `;`.
pub const DECLARATION_PATTERN: &'static str = r"readonly '\S*': \w*";

/// A CSS file: its path, its text, and the text of its declaration file where one exists.
pub struct SourceFile {
    pub path: String,
    pub css: String,
    pub existing_output: Option<String>,
}

/// What becomes of one CSS file.
pub struct FilePlan {
    /// Where its declaration file goes.
    pub outfile_name: String,
    /// What to do there; nothing for a global style sheet.
    pub plan: Option<OutputPlan>,
}

/// The view of an optional owned string.
pub open spec fn text_view(o: Option<String>) -> Option<Seq<char>> {
    match o {
        Some(s) => Some(s@),
        None => None,
    }
}

/// The view of an optional borrowed string.
pub open spec fn borrowed_view(o: Option<&String>) -> Option<Seq<char>> {
    match o {
        Some(s) => Some(s@),
        None => None,
    }
}

/// `plan` is what `print_files` decides for the lines `data` and the existing file `existing`.
pub open spec fn plans_output(plan: OutputPlan, data: Seq<Seq<char>>, existing: Option<Seq<char>>) -> bool {
    &&& plan.contents@ == declaration_file(data)
    &&& plan.write == needs_writing(data, existing_declarations(DECLARATION_PATTERN@, existing), ";"@)
    &&& plan.announce_creation == (existing is None && data.len() == usize::MAX)
}

/// `fp` is what becomes of the CSS file `src`.
pub open spec fn plans_file(fp: FilePlan, src: SourceFile, camel: bool, out_dir: Seq<char>) -> bool {
    let outfile = outfile_for(src.path@, out_dir);
    &&& fp.outfile_name@ == outfile
    &&& (fp.plan is None <==> has_text(outfile, "global"@))
    &&& (fp.plan matches Some(p) ==> plans_output(
        p,
        dedup(declaration_lines(src.css@, camel)),
        text_view(src.existing_output),
    ))
}

/// The distinct declarations, without their `;`, in the text of a declaration file.
pub fn find_declarations(text: &str) -> (res: Vec<String>)
    ensures
        views(res@) == dedup(all_matches(DECLARATION_PATTERN@, text@)),
        views(res@).no_duplicates(),
        forall|x: Seq<char>|
            views(res@).contains(x) <==> all_matches(DECLARATION_PATTERN@, text@).contains(x),
{
    let found = find_all(DECLARATION_PATTERN, text);
    proof {
        lemma_dedup(all_matches(DECLARATION_PATTERN@, text@));
    }
    distinct(found)
}

/// The plan for one declaration file: rewrite it when some line, with its `;`,
/// is not declared there yet.
pub fn print_files(data_set: &Vec<String>, existing: Option<&String>) -> (res: OutputPlan)
    ensures
        plans_output(res, views(data_set@), borrowed_view(existing)),
{
    // A new file is announced when `!len == 0`, that is when every bit of the length is set.
    let announce_creation = match existing {
        None => data_set.len() == usize::MAX,
        Some(_) => false,
    };
    let found = match existing {
        Some(text) => find_all(DECLARATION_PATTERN, text.as_str()),
        None => Vec::new(),
    };
    assert(views(found@) =~= existing_declarations(DECLARATION_PATTERN@, borrowed_view(existing)));
    let write = has_unmatched(data_set, &found, ";");
    OutputPlan { write, announce_creation, contents: render_declarations(data_set) }
}

/// What becomes of each CSS file: its declaration lines are planned into its
/// declaration file, unless that file's name mentions `global`.
pub fn parse_and_print(path_names: &Vec<SourceFile>, mod_flags: &ModFlags) -> (res: Vec<FilePlan>)
    ensures
        res@.len() == path_names@.len(),
        forall|k: int|
            0 <= k < res@.len() ==> plans_file(
                #[trigger] res@[k],
                path_names@[k],
                mod_flags.camel_case_flag,
                mod_flags.out_dir@,
            ),
{
    let mut out: Vec<FilePlan> = Vec::new();
    let mut i: usize = 0;
    while i < path_names.len()
        invariant
            i <= path_names@.len(),
            out@.len() == i,
            forall|k: int|
                0 <= k < i ==> plans_file(
                    #[trigger] out@[k],
                    path_names@[k],
                    mod_flags.camel_case_flag,
                    mod_flags.out_dir@,
                ),
        decreases path_names@.len() - i,
    {
        let src = &path_names[i];
        let (data_vec, outfile_name) = parse_file_data(&src.path, src.css.as_str(), mod_flags);
        let plan = if !contains_text(outfile_name.as_str(), "global") {
            let existing = match &src.existing_output {
                Some(t) => Some(t),
                None => None,
            };
            assert(borrowed_view(existing) == text_view(src.existing_output));
            Some(print_files(&data_vec, existing))
        } else {
            None
        };
        out.push(FilePlan { outfile_name, plan });
        i = i + 1;
    }
    out
}

} // verus!
