//! Reading the command line: the folder to search and the flags that follow it.
use crate::matching::{is_match, matches_anywhere};
use crate::strings::{contains_text, float_literal, has_text, is_float_literal, same_text};
use vstd::prelude::*;
use vstd::string::*;

verus! {

/// One ASCII digit anywhere in a token.
pub const NUMBER_PATTERN: &'static str = r"[0-9]";

/// The folder and the flags that the arguments name: the first argument without
/// a dash is the folder, later ones are flags; a dashed argument is a flag
/// unless it contains the folder (and, while there is no folder yet, every
/// dashed argument contains it). Arguments that mention the program are skipped.
pub open spec fn scan_args(args: Seq<Seq<char>>) -> (Seq<char>, Seq<Seq<char>>)
    decreases args.len(),
{
    if args.len() == 0 {
        (Seq::empty(), Seq::empty())
    } else {
        let (path, flags) = scan_args(args.drop_last());
        let a = args.last();
        if has_text(a, "ztcm"@) {
            (path, flags)
        } else if !has_text(a, "-"@) {
            if path.len() == 0 {
                (a, flags)
            } else {
                (path, flags.push(a))
            }
        } else if !has_text(a, path) {
            (path, flags.push(a))
        } else {
            (path, flags)
        }
    }
}

/// Law: an argument that mentions the program is never taken as the folder or
/// as a flag, and the folder has no dash.
pub proof fn lemma_scan_args(args: Seq<Seq<char>>)
    ensures
        !has_text(scan_args(args).0, "-"@),
        !has_text(scan_args(args).0, "ztcm"@),
        forall|k: int| 0 <= k < scan_args(args).1.len() ==> !has_text(#[trigger] scan_args(args).1[k], "ztcm"@),
    decreases args.len(),
{
    if args.len() == 0 {
        reveal_strlit("-");
        reveal_strlit("ztcm");
        assert(!has_text(Seq::<char>::empty(), "-"@)) by {
            if has_text(Seq::<char>::empty(), "-"@) {
                let i = choose|i: int| crate::strings::occurs_at(Seq::<char>::empty(), "-"@, i);
            }
        }
        assert(!has_text(Seq::<char>::empty(), "ztcm"@)) by {
            if has_text(Seq::<char>::empty(), "ztcm"@) {
                let i = choose|i: int| crate::strings::occurs_at(Seq::<char>::empty(), "ztcm"@, i);
            }
        }
    } else {
        lemma_scan_args(args.drop_last());
        let (path, flags) = scan_args(args.drop_last());
        let a = args.last();
        if !has_text(a, "ztcm"@) {
            assert forall|k: int| 0 <= k < flags.push(a).len() implies !has_text(#[trigger] flags.push(a)[k], "ztcm"@) by {
                if k < flags.len() {
                    assert(flags.push(a)[k] == flags[k]);
                }
            }
        }
    }
}

/// An argument that neither has a dash nor mentions the program.
pub open spec fn is_plain_arg(a: Seq<char>) -> bool {
    !has_text(a, "ztcm"@) && !has_text(a, "-"@)
}

/// An argument without a dash.
pub open spec fn is_undashed(a: Seq<char>) -> bool {
    !has_text(a, "-"@)
}

/// Law: where no argument is empty, the folder is the first argument that has no
/// dash and does not mention the program, and every later such argument is kept
/// as a flag, in order: the flags without a dash are exactly those arguments.
pub proof fn lemma_scan_args_plain(args: Seq<Seq<char>>)
    requires
        forall|k: int| 0 <= k < args.len() ==> (#[trigger] args[k]).len() > 0,
    ensures
        args.filter(|a: Seq<char>| is_plain_arg(a)).len() == 0 ==> scan_args(args).0.len() == 0
            && scan_args(args).1.filter(|a: Seq<char>| is_undashed(a)).len() == 0,
        args.filter(|a: Seq<char>| is_plain_arg(a)).len() > 0 ==> scan_args(args).0 == args.filter(
            |a: Seq<char>| is_plain_arg(a),
        )[0] && scan_args(args).1.filter(|a: Seq<char>| is_undashed(a)) == args.filter(
            |a: Seq<char>| is_plain_arg(a),
        ).drop_first(),
    decreases args.len(),
{
    let plain = |a: Seq<char>| is_plain_arg(a);
    let undashed = |a: Seq<char>| is_undashed(a);
    if args.len() == 0 {
        reveal(Seq::filter);
        assert(args.filter(plain).len() == 0);
        assert(Seq::<Seq<char>>::empty().filter(undashed).len() == 0);
    } else {
        let t = args.drop_last();
        let a = args.last();
        assert forall|k: int| 0 <= k < t.len() implies (#[trigger] t[k]).len() > 0 by {
            assert(t[k] == args[k]);
        }
        lemma_scan_args_plain(t);
        assert(t.push(a) =~= args);
        t.lemma_filter_push(a, plain);
        let (path, flags) = scan_args(t);
        let pt = t.filter(plain);
        if has_text(a, "ztcm"@) {
        } else if !has_text(a, "-"@) {
            if path.len() == 0 {
                assert(pt.len() == 0) by {
                    if pt.len() > 0 {
                        assert(pt.contains(pt[0]));
                        t.lemma_filter_contains_rev(plain, pt[0]);
                        let k = choose|k: int| 0 <= k < t.len() && t[k] == pt[0];
                        assert(t[k].len() > 0);
                    }
                }
                assert(pt.push(a)[0] == a);
                assert(pt.push(a).drop_first() =~= Seq::<Seq<char>>::empty());
                assert(flags.filter(undashed) =~= Seq::<Seq<char>>::empty());
            } else {
                assert(pt.len() > 0);
                flags.lemma_filter_push(a, undashed);
                assert(pt.push(a)[0] == pt[0]);
                assert(pt.push(a).drop_first() =~= pt.drop_first().push(a));
            }
        } else if !has_text(a, path) {
            flags.lemma_filter_push(a, undashed);
        } else {
        }
    }
}

/// An argument that asks for help.
pub open spec fn asks_help(a: Seq<char>) -> bool {
    has_text(a, "-h"@) || has_text(a, "-help"@)
}

/// The views of a list of strings.
pub open spec fn string_views(v: Seq<String>) -> Seq<Seq<char>> {
    v.map_values(|s: String| s@)
}

/// The folder to search and the flags after it.
pub struct Config {
    pub query: String,
    pub flags: Vec<String>,
}

/// How long the watch loop waits between cycles.
pub enum WatchDelay {
    /// Not watching.
    Off,
    /// Watching with the default delay.
    Default,
    /// Watching with the delay that this decimal number gives, in seconds.
    Given(String),
}

/// The view of a watch delay.
pub enum Delay {
    Off,
    Default,
    Given(Seq<char>),
}

impl WatchDelay {
    pub open spec fn view(&self) -> Delay {
        match self {
            WatchDelay::Off => Delay::Off,
            WatchDelay::Default => Delay::Default,
            WatchDelay::Given(s) => Delay::Given(s@),
        }
    }
}

/// Why the flags cannot be used.
#[derive(PartialEq, Eq, Structural, Debug, Clone, Copy)]
pub enum FlagError {
    NoOutputDir,
    NoPattern,
    BadThreads,
    BadDelay,
    BadCycles,
    CamelAndKebab,
}

/// The errors on which reading the flags stops the program: a number that does
/// not parse, or both case conversions at once. The others are reported.
pub open spec fn fatal(e: FlagError) -> bool {
    e != FlagError::NoOutputDir && e != FlagError::NoPattern
}

impl FlagError {
    /// Whether the error stops the program.
    pub fn is_fatal(&self) -> (res: bool)
        ensures
            res == fatal(*self),
    {
        !matches!(self, FlagError::NoOutputDir | FlagError::NoPattern)
    }

    /// The message that goes with the error.
    pub fn message(&self) -> (res: &'static str)
        ensures
            *self == FlagError::NoOutputDir ==> res@ == "No output directory specified"@,
            *self == FlagError::NoPattern ==> res@ == "No pattern specified"@,
            *self == FlagError::BadThreads ==> res@ == "Error getting number of threads"@,
            *self == FlagError::BadDelay ==> res@ == "Error getting watch delay"@,
            *self == FlagError::BadCycles ==> res@ == "Error getting cycles per refresh"@,
            *self == FlagError::CamelAndKebab ==> res@
                == "Can't have both the Camel and Kebab case flags called at once"@,
    {
        match self {
            FlagError::NoOutputDir => "No output directory specified",
            FlagError::NoPattern => "No pattern specified",
            FlagError::BadThreads => "Error getting number of threads",
            FlagError::BadDelay => "Error getting watch delay",
            FlagError::BadCycles => "Error getting cycles per refresh",
            FlagError::CamelAndKebab => "Can't have both the Camel and Kebab case flags called at once",
        }
    }
}

/// The flag at index `j`, if there is one.
pub open spec fn next_flag(flags: Seq<Seq<char>>, j: int) -> Option<Seq<char>> {
    if 0 <= j < flags.len() {
        Some(flags[j])
    } else {
        None
    }
}

/// The watch delay that a `-w` sets, given the flag after it: that flag where it
/// holds a digit (an error where it does not parse as a number), else the default.
pub open spec fn delay_from(next: Option<Seq<char>>) -> Result<Delay, FlagError> {
    match next {
        Some(t) => if is_match(NUMBER_PATTERN@, t) {
            if float_literal(t) {
                Ok(Delay::Given(t))
            } else {
                Err(FlagError::BadDelay)
            }
        } else {
            Ok(Delay::Default)
        },
        None => Ok(Delay::Default),
    }
}

/// The watch delay that `-w` at index `i` sets.
pub open spec fn delay_after(flags: Seq<Seq<char>>, i: int) -> Result<Delay, FlagError> {
    delay_from(next_flag(flags, i + 1))
}

/// The view of an optional borrowed string.
pub open spec fn ref_view(o: Option<&String>) -> Option<Seq<char>> {
    match o {
        Some(s) => Some(s@),
        None => None,
    }
}

/// The view of a watch delay or of the error in reading it.
pub open spec fn delay_result_view(res: Result<WatchDelay, FlagError>) -> Result<Delay, FlagError> {
    match res {
        Ok(d) => Ok(d.view()),
        Err(e) => Err(e),
    }
}

/// The watch delay that a `-w` followed by `next` sets.
pub fn watch_delay_from(next: Option<&String>) -> (res: Result<WatchDelay, FlagError>)
    ensures
        delay_result_view(res) == delay_from(ref_view(next)),
{
    match next {
        Some(t) => if matches_anywhere(NUMBER_PATTERN, t.as_str()) {
            if is_float_literal(t.as_str()) {
                Ok(WatchDelay::Given(t.clone()))
            } else {
                Err(FlagError::BadDelay)
            }
        } else {
            Ok(WatchDelay::Default)
        },
        None => Ok(WatchDelay::Default),
    }
}

/// What the `-r` and `-w` flags from index `i` on make of `(recursive, delay)`.
pub open spec fn watch_flags_from(flags: Seq<Seq<char>>, i: int, recursive: bool, delay: Delay) -> Result<
    (bool, Delay),
    FlagError,
>
    decreases flags.len() - i,
{
    if i < 0 || i >= flags.len() {
        Ok((recursive, delay))
    } else if flags[i] == "-r"@ {
        watch_flags_from(flags, i + 1, true, delay)
    } else if flags[i] == "-w"@ {
        match delay_after(flags, i) {
            Ok(d) => watch_flags_from(flags, i + 1, recursive, d),
            Err(e) => Err(e),
        }
    } else {
        watch_flags_from(flags, i + 1, recursive, delay)
    }
}

/// The view of the result of `Config::watch_flags`.
pub open spec fn watch_result_view(res: Result<(bool, WatchDelay), FlagError>) -> Result<(bool, Delay), FlagError> {
    match res {
        Ok((r, d)) => Ok((r, d.view())),
        Err(e) => Err(e),
    }
}

impl Config {
    /// The folder and flags of the arguments; errors for fewer than two or more
    /// than five arguments, and when an argument asks for help.
    pub fn new_args(args: &[String]) -> (res: Result<Config, &'static str>)
        ensures
            args@.len() < 2 ==> (res matches Err(e) && e@ == "not enough arguments"@),
            args@.len() > 5 ==> (res matches Err(e) && e@ == "too many arguments"@),
            2 <= args@.len() <= 5 ==> match res {
                Err(e) => e@ == "Help flag called"@ && exists|i: int|
                    0 <= i < args@.len() && asks_help(#[trigger] args@[i]@),
                Ok(c) => (forall|i: int| 0 <= i < args@.len() ==> !asks_help(#[trigger] args@[i]@))
                    && (c.query@, string_views(c.flags@)) == scan_args(string_views(args@)),
            },
    {
        if args.len() < 2 {
            return Err("not enough arguments");
        } else if args.len() > 5 {
            return Err("too many arguments");
        }
        let mut path = String::new();
        let mut flags: Vec<String> = Vec::new();
        let mut i: usize = 0;
        while i < args.len()
            invariant
                2 <= args@.len() <= 5,
                i <= args@.len(),
                forall|k: int| 0 <= k < i ==> !asks_help(#[trigger] args@[k]@),
                (path@, string_views(flags@)) == scan_args(string_views(args@).subrange(0, i as int)),
            decreases args@.len() - i,
        {
            let arg = &args[i];
            proof {
                let next = string_views(args@).subrange(0, i + 1);
                assert(next.drop_last() =~= string_views(args@).subrange(0, i as int));
                assert(next.last() == arg@);
            }
            if contains_text(arg.as_str(), "-h") || contains_text(arg.as_str(), "-help") {
                return Err("Help flag called");
            } else if !contains_text(arg.as_str(), "ztcm") {
                if !contains_text(arg.as_str(), "-") {
                    if path.as_str().unicode_len() == 0 {
                        path = arg.clone();
                    } else {
                        let ghost before = string_views(flags@);
                        flags.push(arg.clone());
                        assert(string_views(flags@) =~= before.push(arg@));
                    }
                } else if !contains_text(arg.as_str(), path.as_str()) {
                    let ghost before = string_views(flags@);
                    flags.push(arg.clone());
                    assert(string_views(flags@) =~= before.push(arg@));
                }
            }
            i = i + 1;
        }
        assert(string_views(args@).subrange(0, args@.len() as int) =~= string_views(args@));
        Ok(Config { query: path, flags })
    }

    /// Whether some `-w` is followed by a delay that holds a digit but is no number,
    /// on which the flags cannot be read.
    pub fn bad_delay(&self) -> (res: bool)
        ensures
            res == watch_flags_from(string_views(self.flags@), 0, false, Delay::Off) is Err,
    {
        self.scan_watch_flags().is_err()
    }

    /// Whether to search recursively (`-r`) and how to watch (`-w`, optionally
    /// followed by a delay).
    pub fn watch_flags(&self) -> (res: (bool, WatchDelay))
        requires
            watch_flags_from(string_views(self.flags@), 0, false, Delay::Off) is Ok,
        ensures
            watch_flags_from(string_views(self.flags@), 0, false, Delay::Off) == Ok::<
                (bool, Delay),
                FlagError,
            >((res.0, res.1.view())),
    {
        match self.scan_watch_flags() {
            Ok(r) => r,
            Err(_) => (false, WatchDelay::Off),
        }
    }

    fn scan_watch_flags(&self) -> (res: Result<(bool, WatchDelay), FlagError>)
        ensures
            watch_flags_from(string_views(self.flags@), 0, false, Delay::Off) == watch_result_view(res),
    {
        let flags = &self.flags;
        let ghost fs = string_views(flags@);
        let mut recursive = false;
        let mut delay = WatchDelay::Off;
        let mut i: usize = 0;
        while i < flags.len()
            invariant
                i <= flags@.len(),
                fs == string_views(flags@),
                fs == string_views(self.flags@),
                watch_flags_from(fs, 0, false, Delay::Off) == watch_flags_from(
                    fs,
                    i as int,
                    recursive,
                    delay.view(),
                ),
            decreases flags@.len() - i,
        {
            assert(fs[i as int] == flags@[i as int]@);
            if same_text(flags[i].as_str(), "-r") {
                recursive = true;
            } else if same_text(flags[i].as_str(), "-w") {
                let next = if i + 1 < flags.len() {
                    Some(&flags[i + 1])
                } else {
                    None
                };
                assert(ref_view(next) == next_flag(fs, i + 1));
                match watch_delay_from(next) {
                    Ok(d) => {
                        delay = d;
                    },
                    Err(e) => {
                        assert(fs[i as int] != "-r"@);
                        assert(watch_flags_from(fs, i as int, recursive, delay.view()) == Err::<
                            (bool, Delay),
                            FlagError,
>(e));
                        return Err(e);
                    },
                }
            }
            i = i + 1;
        }
        Ok((recursive, delay))
    }
}

} // verus!
