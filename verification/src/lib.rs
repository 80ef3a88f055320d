//! Generates TypeScript declaration files for CSS modules: every class, id and
//! `@value` name of a `.css` file becomes a `readonly` string property of the
//! module's declared `styles` object.
pub mod matching;
pub mod parse_and_printout;
pub mod parser;
pub mod resolve_input;
pub mod run;
pub mod strings;
pub mod watch;

use crate::strings::{contains_text, ends_with_text, has_text};
use vstd::prelude::*;
use vstd::string::*;

verus! {

/// The folder to search and the one flag after it.
pub struct Config {
    pub query: String,
    pub flag: String,
}

/// `new` would index past the arguments: two arguments whose second holds a
/// dash but asks for no help.
pub open spec fn lacks_flag(args: Seq<Seq<char>>) -> bool {
    args.len() == 2 && has_text(args[1], "-"@) && !has_text(args[1], "-h"@) && !has_text(args[1], "-help"@)
}

/// Paths that end in `.css`, in order.
pub open spec fn css_only(paths: Seq<Seq<char>>) -> Seq<Seq<char>>
    decreases paths.len(),
{
    if paths.len() == 0 {
        Seq::empty()
    } else {
        let r = css_only(paths.drop_last());
        let p = paths.last();
        if ends_in_css(p) {
            r.push(p)
        } else {
            r
        }
    }
}

/// Law: every path that the filter keeps ends in `.css`, and the paths that end
/// in `.css` are all kept.
pub proof fn lemma_css_only(paths: Seq<Seq<char>>)
    ensures
        forall|k: int| 0 <= k < css_only(paths).len() ==> ends_in_css(#[trigger] css_only(paths)[k]),
        forall|k: int| 0 <= k < paths.len() && ends_in_css(#[trigger] paths[k]) ==> css_only(paths).contains(paths[k]),
    decreases paths.len(),
{
    if paths.len() > 0 {
        let t = paths.drop_last();
        lemma_css_only(t);
        let r = css_only(t);
        let p = paths.last();
        assert forall|k: int| 0 <= k < css_only(paths).len() implies ends_in_css(#[trigger] css_only(paths)[k]) by {
            if k < r.len() {
                assert(css_only(paths)[k] == r[k]);
            }
        }
        assert forall|k: int| 0 <= k < paths.len() && ends_in_css(#[trigger] paths[k]) implies css_only(paths).contains(paths[k]) by {
            if k < paths.len() - 1 {
                assert(t[k] == paths[k]);
                let j = choose|j: int| 0 <= j < r.len() && r[j] == t[k];
                if ends_in_css(p) {
                    assert(css_only(paths)[j] == r[j]);
                }
            } else {
                assert(css_only(paths)[r.len() as int] == p);
            }
        }
    }
}

/// A path that ends in `.css`.
pub open spec fn ends_in_css(p: Seq<char>) -> bool {
    ".css"@.len() <= p.len() && p.subrange(p.len() - ".css"@.len(), p.len() as int) == ".css"@
}

/// Arguments without a dash, in order.
pub open spec fn without_dash(args: Seq<Seq<char>>) -> Seq<Seq<char>>
    decreases args.len(),
{
    if args.len() == 0 {
        Seq::empty()
    } else {
        let r = without_dash(args.drop_last());
        if has_text(args.last(), "-"@) {
            r
        } else {
            r.push(args.last())
        }
    }
}

impl Config {
    /// The folder (the second argument) and the flag (the third, or none); errors
    /// for fewer than two or more than five arguments, and `help` when the second
    /// argument asks for it.
    pub fn new(args: &[String]) -> (res: Result<Config, &'static str>)
        requires
            !lacks_flag(args@.map_values(|s: String| s@)),
        ensures
            args@.len() < 2 ==> (res matches Err(e) && e@ == "not enough arguments"@),
            args@.len() > 5 ==> (res matches Err(e) && e@ == "too many arguments"@),
            2 <= args@.len() <= 5 ==> {
                let q = args@[1]@;
                if !has_text(q, "-"@) && args@.len() == 2 {
                    res matches Ok(c) && c.query@ == q && c.flag@.len() == 0
                } else if has_text(q, "-h"@) || (has_text(q, "-help"@) && args@.len() == 2) {
                    res matches Err(e) && e@ == "help"@
                } else {
                    res matches Ok(c) && c.query@ == q && c.flag@ == args@[2]@
                }
            },
    {
        if args.len() < 2 {
            return Err("not enough arguments");
        } else if args.len() > 5 {
            return Err("too many arguments");
        }
        let q = args[1].clone();
        if !contains_text(q.as_str(), "-") && args.len() == 2 {
            Ok(Config { query: q, flag: String::new() })
        } else if contains_text(q.as_str(), "-h") || (contains_text(q.as_str(), "-help") && args.len()
            == 2) {
            Err("help")
        } else {
            assert(args@.map_values(|s: String| s@)[1] == args@[1]@);
            Ok(Config { query: q, flag: args[2].clone() })
        }
    }

    /// Whether `run` searches the folder recursively: its flag is `-r`.
    pub fn wants_recursion(&self) -> (res: bool)
        ensures
            res == (self.flag@ == "-r"@),
    {
        strings::same_text(self.flag.as_str(), "-r")
    }
}

/// The arguments that `new` reports as query folders: those without a dash.
pub fn query_folders(args: &[String]) -> (res: Vec<String>)
    ensures
        res@.map_values(|s: String| s@) == without_dash(args@.map_values(|s: String| s@)),
{
    let ghost views = args@.map_values(|s: String| s@);
    let mut out: Vec<String> = Vec::new();
    let mut i: usize = 0;
    while i < args.len()
        invariant
            i <= args@.len(),
            views == args@.map_values(|s: String| s@),
            out@.map_values(|s: String| s@) == without_dash(views.subrange(0, i as int)),
        decreases args@.len() - i,
    {
        proof {
            let next = views.subrange(0, i + 1);
            assert(next.drop_last() =~= views.subrange(0, i as int));
            assert(next.last() == args@[i as int]@);
        }
        if !contains_text(args[i].as_str(), "-") {
            let ghost before = out@.map_values(|s: String| s@);
            out.push(args[i].clone());
            assert(out@.map_values(|s: String| s@) =~= before.push(args@[i as int]@));
        }
        i = i + 1;
    }
    assert(views.subrange(0, args@.len() as int) =~= views);
    out
}

/// The paths that end in `.css`, in their order.
pub fn css_files(entries: Vec<String>) -> (res: Vec<String>)
    ensures
        res@.map_values(|s: String| s@) == css_only(entries@.map_values(|s: String| s@)),
{
    let ghost views = entries@.map_values(|s: String| s@);
    let mut out: Vec<String> = Vec::new();
    let mut i: usize = 0;
    while i < entries.len()
        invariant
            i <= entries@.len(),
            views == entries@.map_values(|s: String| s@),
            out@.map_values(|s: String| s@) == css_only(views.subrange(0, i as int)),
        decreases entries@.len() - i,
    {
        proof {
            let next = views.subrange(0, i + 1);
            assert(next.drop_last() =~= views.subrange(0, i as int));
            assert(next.last() == entries@[i as int]@);
        }
        if ends_with_text(entries[i].as_str(), ".css") {
            let ghost before = out@.map_values(|s: String| s@);
            out.push(entries[i].clone());
            assert(out@.map_values(|s: String| s@) =~= before.push(entries@[i as int]@));
        }
        i = i + 1;
    }
    assert(views.subrange(0, entries@.len() as int) =~= views);
    out
}

/// `directory/**/*.css`: the CSS files anywhere below a folder.
pub fn recursive_css_pattern(directory: String) -> (res: String)
    ensures
        res@ == directory@ + "/**/*.css"@,
{
    directory.concat("/**/*.css")
}

} // verus!
