//! Reading the command line with all its flags: recursion, name case, output
//! directory, file pattern, threads and watching.
use crate::matching::{is_match, matches_anywhere};
use crate::resolve_input::{
    delay_from, fatal, ref_view, scan_args, watch_delay_from, Delay, FlagError, WatchDelay,
    NUMBER_PATTERN,
};
use crate::strings::{contains_char, contains_text, has_text, i32_value, parse_i32, same_text};
use vstd::prelude::*;
use vstd::string::*;

verus! {

/// A token with a word character or a `*` in it.
pub const WORD_PATTERN: &'static str = r"[\w*]";

/// The defaults of the options that flags may leave unset.
pub struct Defaults {
    pub pattern: String,
    pub re_index: i32,
    pub threads: i32,
}

/// The defaults: `.module.css` files, re-indexing every 90 cycles, two threads.
pub fn get_defaults() -> (res: Defaults)
    ensures
        res.pattern@ == ".module.css"@,
        res.re_index == 90,
        res.threads == 2,
{
    Defaults { pattern: String::from_str(".module.css"), re_index: 90, threads: 2 }
}

/// The folder to search, the flags after it, and the defaults.
pub struct Config<'a> {
    pub query: String,
    pub flags: Vec<&'a String>,
    pub defaults: Defaults,
}

/// The views of a list of borrowed strings.
pub open spec fn ref_views(v: Seq<&String>) -> Seq<Seq<char>> {
    v.map_values(|s: &String| s@)
}

/// An argument that asks for help.
pub open spec fn asks_help(a: Seq<char>) -> bool {
    has_text(a, "-h"@) || has_text(a, "-help"@) || has_text(a, "--help"@)
}

/// The options that the flags set.
pub struct RunOptions {
    pub recursive: bool,
    pub cc_flag: bool,
    pub kc_flag: bool,
    pub out_dir: String,
    pub pattern: String,
    pub watch_delay: WatchDelay,
    pub cycles_per_refresh: i32,
    pub threads: i32,
    /// Whether `-m` was given.
    pub multithreaded: bool,
}

/// The view of the options.
pub struct OptionsModel {
    pub recursive: bool,
    pub cc_flag: bool,
    pub kc_flag: bool,
    pub out_dir: Seq<char>,
    pub pattern: Seq<char>,
    pub watch_delay: Delay,
    pub cycles_per_refresh: i32,
    pub threads: i32,
    /// Whether `-m` was given.
    pub multithreaded: bool,
}

impl RunOptions {
    pub open spec fn view(&self) -> OptionsModel {
        OptionsModel {
            recursive: self.recursive,
            cc_flag: self.cc_flag,
            kc_flag: self.kc_flag,
            out_dir: self.out_dir@,
            pattern: self.pattern@,
            watch_delay: self.watch_delay.view(),
            cycles_per_refresh: self.cycles_per_refresh,
            threads: self.threads,
            multithreaded: self.multithreaded,
        }
    }
}

/// The options before any flag: no recursion, no case change, no output
/// directory, the default pattern, no watching, one thread, no `-m`.
pub open spec fn initial_options(pattern: Seq<char>) -> OptionsModel {
    OptionsModel {
        recursive: false,
        cc_flag: false,
        kc_flag: false,
        out_dir: Seq::empty(),
        pattern,
        watch_delay: Delay::Off,
        cycles_per_refresh: 0,
        threads: 1,
        multithreaded: false,
    }
}

/// The number that the flag after a number flag gives: that flag where it holds
/// a digit (the error `err` where it is no `i32`), else `default`.
pub open spec fn number_from(next: Option<Seq<char>>, default: i32, err: FlagError) -> Result<i32, FlagError> {
    match next {
        Some(t) => if is_match(NUMBER_PATTERN@, t) {
            match i32_value(t) {
                Some(v) => Ok(v),
                None => Err(err),
            }
        } else {
            Ok(default)
        },
        None => Ok(default),
    }
}

/// The argument of `-o` or `-p`: the next flag where it holds a word character or a `*`.
pub open spec fn word_from(next: Option<Seq<char>>) -> Option<Seq<char>> {
    match next {
        Some(t) => if is_match(WORD_PATTERN@, t) {
            Some(t)
        } else {
            None
        },
        None => None,
    }
}

/// The flag at index `j`, if there is one.
pub open spec fn flag_at(flags: Seq<Seq<char>>, j: int) -> Option<Seq<char>> {
    if 0 <= j < flags.len() {
        Some(flags[j])
    } else {
        None
    }
}

/// What the flag at index `i` does to the options.
pub open spec fn flag_step(flags: Seq<Seq<char>>, i: int, m: OptionsModel, re_index: i32, threads: i32) -> Result<
    OptionsModel,
    FlagError,
> {
    let f = flags[i];
    if f == "-r"@ {
        Ok(OptionsModel { recursive: true, ..m })
    } else if f == "-c"@ {
        Ok(OptionsModel { cc_flag: true, ..m })
    } else if f == "-k"@ {
        Ok(OptionsModel { kc_flag: true, ..m })
    } else if f == "-o"@ {
        match word_from(flag_at(flags, i + 1)) {
            Some(d) => Ok(OptionsModel { out_dir: d, ..m }),
            None => Err(FlagError::NoOutputDir),
        }
    } else if f == "-p"@ {
        match word_from(flag_at(flags, i + 1)) {
            Some(p) => Ok(OptionsModel { pattern: p, ..m }),
            None => Err(FlagError::NoPattern),
        }
    } else if f == "-m"@ {
        match number_from(flag_at(flags, i + 1), threads, FlagError::BadThreads) {
            Ok(t) => Ok(OptionsModel { threads: t, multithreaded: true, ..m }),
            Err(e) => Err(e),
        }
    } else if f == "-w"@ {
        match delay_from(flag_at(flags, i + 1)) {
            Ok(d) => match number_from(flag_at(flags, i + 2), re_index, FlagError::BadCycles) {
                Ok(c) => Ok(OptionsModel { watch_delay: d, cycles_per_refresh: c, ..m }),
                Err(e) => Err(e),
            },
            Err(e) => Err(e),
        }
    } else {
        Ok(m)
    }
}

/// The options after the flags from index `i` on.
pub open spec fn flags_from(flags: Seq<Seq<char>>, i: int, m: OptionsModel, re_index: i32, threads: i32) -> Result<
    OptionsModel,
    FlagError,
>
    decreases flags.len() - i,
{
    if i < 0 || i >= flags.len() {
        Ok(m)
    } else {
        match flag_step(flags, i, m, re_index, threads) {
            Ok(next) => flags_from(flags, i + 1, next, re_index, threads),
            Err(e) => Err(e),
        }
    }
}

/// The options that all the flags set; camelCase and kebab-case together are refused.
pub open spec fn resolved_options(flags: Seq<Seq<char>>, pattern: Seq<char>, re_index: i32, threads: i32) -> Result<
    OptionsModel,
    FlagError,
> {
    match flags_from(flags, 0, initial_options(pattern), re_index, threads) {
        Ok(m) => if m.cc_flag && m.kc_flag {
            Err(FlagError::CamelAndKebab)
        } else {
            Ok(m)
        },
        Err(e) => Err(e),
    }
}

/// The argument after the last `key` from index `i` on; `current` where there is none.
pub open spec fn last_arg(flags: Seq<Seq<char>>, key: Seq<char>, i: int, current: Seq<char>) -> Seq<char>
    decreases flags.len() - i,
{
    if i < 0 || i >= flags.len() {
        current
    } else {
        last_arg(
            flags,
            key,
            i + 1,
            if flags[i] == key && i + 1 < flags.len() {
                flags[i + 1]
            } else {
                current
            },
        )
    }
}

/// `key` is one of the flags from index `i` on.
pub open spec fn has_flag_from(flags: Seq<Seq<char>>, key: Seq<char>, i: int) -> bool {
    exists|j: int| i <= j < flags.len() && flags[j] == key
}

proof fn lemma_flags_from_effect(flags: Seq<Seq<char>>, i: int, m: OptionsModel, re_index: i32, threads: i32)
    requires
        0 <= i,
    ensures
        flags_from(flags, i, m, re_index, threads) matches Ok(r) ==> {
            &&& r.out_dir == last_arg(flags, "-o"@, i, m.out_dir)
            &&& r.pattern == last_arg(flags, "-p"@, i, m.pattern)
            &&& r.recursive == (m.recursive || has_flag_from(flags, "-r"@, i))
            &&& r.cc_flag == (m.cc_flag || has_flag_from(flags, "-c"@, i))
            &&& r.kc_flag == (m.kc_flag || has_flag_from(flags, "-k"@, i))
            &&& r.multithreaded == (m.multithreaded || has_flag_from(flags, "-m"@, i))
        },
    decreases flags.len() - i,
{
    reveal_strlit("-r");
    reveal_strlit("-c");
    reveal_strlit("-k");
    reveal_strlit("-o");
    reveal_strlit("-p");
    reveal_strlit("-m");
    reveal_strlit("-w");
    assert("-r"@[1] == 'r' && "-c"@[1] == 'c' && "-k"@[1] == 'k' && "-o"@[1] == 'o' && "-p"@[1] == 'p'
        && "-m"@[1] == 'm' && "-w"@[1] == 'w');
    if i < flags.len() {
        let f = flags[i];
        match flag_step(flags, i, m, re_index, threads) {
            Ok(next) => {
                lemma_flags_from_effect(flags, i + 1, next, re_index, threads);
                assert(f == "-r"@ ==> f != "-c"@ && f != "-k"@ && f != "-o"@ && f != "-p"@ && f
                    != "-m"@);
                assert(f == "-c"@ ==> f != "-r"@ && f != "-k"@ && f != "-o"@ && f != "-p"@ && f
                    != "-m"@);
                assert(f == "-k"@ ==> f != "-r"@ && f != "-c"@ && f != "-o"@ && f != "-p"@ && f
                    != "-m"@);
                assert(f == "-o"@ ==> f != "-r"@ && f != "-c"@ && f != "-k"@ && f != "-p"@ && f
                    != "-m"@);
                assert(f == "-p"@ ==> f != "-r"@ && f != "-c"@ && f != "-k"@ && f != "-o"@ && f
                    != "-m"@);
                assert(f == "-m"@ ==> f != "-r"@ && f != "-c"@ && f != "-k"@ && f != "-o"@ && f
                    != "-p"@);
                assert(f == "-w"@ ==> f != "-r"@ && f != "-c"@ && f != "-k"@ && f != "-o"@ && f
                    != "-p"@ && f != "-m"@);
                assert forall|key: Seq<char>| has_flag_from(flags, key, i) == (f == key || has_flag_from(
                    flags,
                    key,
                    i + 1,
                )) by {
                    if has_flag_from(flags, key, i) {
                        let j = choose|j: int| i <= j < flags.len() && flags[j] == key;
                        if j > i {
                            assert(i + 1 <= j < flags.len() && flags[j] == key);
                        }
                    }
                    if has_flag_from(flags, key, i + 1) {
                        let j = choose|j: int| i + 1 <= j < flags.len() && flags[j] == key;
                        assert(i <= j < flags.len() && flags[j] == key);
                    }
                }
            },
            Err(_) => {},
        }
    }
}

/// Law: what the flags set, where they can be read: the output directory and the
/// pattern are the arguments of the last `-o` and `-p` (empty and the default
/// pattern without one), and recursion, camelCase and kebab-case are on exactly
/// when `-r`, `-c` and `-k` are among the flags, the run is marked multithreaded
/// exactly when `-m` is; camelCase and kebab-case are never both on.
pub proof fn lemma_flags_effect(flags: Seq<Seq<char>>, pattern: Seq<char>, re_index: i32, threads: i32)
    ensures
        resolved_options(flags, pattern, re_index, threads) matches Ok(m) ==> {
            &&& m.out_dir == last_arg(flags, "-o"@, 0, Seq::empty())
            &&& m.pattern == last_arg(flags, "-p"@, 0, pattern)
            &&& m.recursive == has_flag_from(flags, "-r"@, 0)
            &&& m.cc_flag == has_flag_from(flags, "-c"@, 0)
            &&& m.kc_flag == has_flag_from(flags, "-k"@, 0)
            &&& m.multithreaded == has_flag_from(flags, "-m"@, 0)
            &&& !(m.cc_flag && m.kc_flag)
        },
{
    lemma_flags_from_effect(flags, 0, initial_options(pattern), re_index, threads);
}

/// `-o` or `-p` at index `j` lacks its argument: no flag follows it, or the next
/// one holds no word character or `*`.
pub open spec fn lacks_argument(flags: Seq<Seq<char>>, key: Seq<char>, j: int) -> bool {
    flags[j] == key && !(j + 1 < flags.len() && is_match(WORD_PATTERN@, flags[j + 1]))
}

proof fn lemma_flags_from_missing(flags: Seq<Seq<char>>, i: int, m: OptionsModel, re_index: i32, threads: i32)
    requires
        0 <= i,
    ensures
        flags_from(flags, i, m, re_index, threads) == Err::<OptionsModel, FlagError>(FlagError::NoOutputDir)
            ==> exists|j: int| i <= j < flags.len() && lacks_argument(flags, "-o"@, j),
        flags_from(flags, i, m, re_index, threads) == Err::<OptionsModel, FlagError>(FlagError::NoPattern)
            ==> exists|j: int| i <= j < flags.len() && lacks_argument(flags, "-p"@, j),
    decreases flags.len() - i,
{
    if i < flags.len() {
        match flag_step(flags, i, m, re_index, threads) {
            Ok(next) => {
                lemma_flags_from_missing(flags, i + 1, next, re_index, threads);
            },
            Err(e) => {
                if e == FlagError::NoOutputDir {
                    assert(lacks_argument(flags, "-o"@, i));
                }
                if e == FlagError::NoPattern {
                    assert(lacks_argument(flags, "-p"@, i));
                }
            },
        }
    }
}

/// Law: the options are refused for a missing output directory only where some
/// `-o` lacks its argument, and for a missing pattern only where some `-p` does;
/// an `-o` or `-p` followed by a flag with a word character is never refused.
pub proof fn lemma_missing_argument(flags: Seq<Seq<char>>, pattern: Seq<char>, re_index: i32, threads: i32)
    ensures
        resolved_options(flags, pattern, re_index, threads) == Err::<OptionsModel, FlagError>(
            FlagError::NoOutputDir,
        ) ==> exists|j: int| 0 <= j < flags.len() && lacks_argument(flags, "-o"@, j),
        resolved_options(flags, pattern, re_index, threads) == Err::<OptionsModel, FlagError>(
            FlagError::NoPattern,
        ) ==> exists|j: int| 0 <= j < flags.len() && lacks_argument(flags, "-p"@, j),
{
    lemma_flags_from_missing(flags, 0, initial_options(pattern), re_index, threads);
}

/// The view of resolved options or of the error.
pub open spec fn options_result_view(res: Result<RunOptions, FlagError>) -> Result<OptionsModel, FlagError> {
    match res {
        Ok(o) => Ok(o.view()),
        Err(e) => Err(e),
    }
}

/// The number that a number flag followed by `next` gives.
pub fn number_flag(next: Option<&String>, default: i32, err: FlagError) -> (res: Result<i32, FlagError>)
    ensures
        res == number_from(ref_view(next), default, err),
{
    match next {
        Some(t) => if matches_anywhere(NUMBER_PATTERN, t.as_str()) {
            match parse_i32(t.as_str()) {
                Some(v) => Ok(v),
                None => Err(err),
            }
        } else {
            Ok(default)
        },
        None => Ok(default),
    }
}

/// The argument of `-o` or `-p` followed by `next`.
pub fn word_flag(next: Option<&String>) -> (res: Option<String>)
    ensures
        match res {
            Some(w) => word_from(ref_view(next)) == Some(w@),
            None => word_from(ref_view(next)) is None,
        },
{
    match next {
        Some(t) => if matches_anywhere(WORD_PATTERN, t.as_str()) {
            Some(t.clone())
        } else {
            None
        },
        None => None,
    }
}

impl<'a> Config<'a> {
    /// The folder and flags of the arguments; errors for fewer than two or more
    /// than twelve arguments, and when an argument asks for help.
    pub fn new_args(args: &'a [String]) -> (res: Result<Config<'a>, &'static str>)
        ensures
            args@.len() < 2 ==> (res matches Err(e) && e@ == "not enough arguments"@),
            args@.len() > 12 ==> (res matches Err(e) && e@ == "too many arguments"@),
            2 <= args@.len() <= 12 ==> match res {
                Err(e) => e@ == "Help flag called"@ && exists|i: int|
                    0 <= i < args@.len() && asks_help(#[trigger] args@[i]@),
                Ok(c) => (forall|i: int| 0 <= i < args@.len() ==> !asks_help(#[trigger] args@[i]@))
                    && (c.query@, ref_views(c.flags@)) == scan_args(args@.map_values(|s: String| s@))
                    && c.defaults.pattern@ == ".module.css"@ && c.defaults.re_index == 90
                    && c.defaults.threads == 2,
            },
    {
        if args.len() < 2 {
            return Err("not enough arguments");
        } else if args.len() > 12 {
            return Err("too many arguments");
        }
        let ghost views = args@.map_values(|s: String| s@);
        let mut path = String::new();
        let mut flags: Vec<&'a String> = Vec::new();
        let defaults = get_defaults();
        let mut i: usize = 0;
        while i < args.len()
            invariant
                2 <= args@.len() <= 12,
                views == args@.map_values(|s: String| s@),
                i <= args@.len(),
                forall|k: int| 0 <= k < i ==> !asks_help(#[trigger] args@[k]@),
                (path@, ref_views(flags@)) == scan_args(views.subrange(0, i as int)),
            decreases args@.len() - i,
        {
            let arg: &'a String = &args[i];
            proof {
                let next = views.subrange(0, i + 1);
                assert(next.drop_last() =~= views.subrange(0, i as int));
                assert(next.last() == arg@);
            }
            if contains_text(arg.as_str(), "-h") || contains_text(arg.as_str(), "-help")
                || contains_text(arg.as_str(), "--help") {
                return Err("Help flag called");
            } else if !contains_text(arg.as_str(), "ztcm") {
                if !contains_char(arg.as_str(), '-') {
                    proof {
                        assert(!has_text(arg@, "-"@)) by {
                            reveal_strlit("-");
                            if has_text(arg@, "-"@) {
                                let k = choose|k: int| crate::strings::occurs_at(arg@, "-"@, k);
                                assert(arg@.subrange(k, k + 1)[0] == arg@[k]);
                            }
                        }
                    }
                    if path.as_str().unicode_len() == 0 {
                        path = arg.clone();
                    } else {
                        let ghost before = ref_views(flags@);
                        flags.push(arg);
                        assert(ref_views(flags@) =~= before.push(arg@));
                    }
                } else {
                    proof {
                        assert(has_text(arg@, "-"@)) by {
                            reveal_strlit("-");
                            let k = choose|k: int| 0 <= k < arg@.len() && arg@[k] == '-';
                            assert(crate::strings::occurs_at(arg@, "-"@, k)) by {
                                assert(arg@.subrange(k, k + 1) =~= "-"@);
                            }
                        }
                    }
                    if !contains_text(arg.as_str(), path.as_str()) {
                        let ghost before = ref_views(flags@);
                        flags.push(arg);
                        assert(ref_views(flags@) =~= before.push(arg@));
                    }
                }
            }
            i = i + 1;
        }
        assert(views.subrange(0, args@.len() as int) =~= views);
        Ok(Config { query: path, flags, defaults })
    }

    /// The options that the flags set, read in order: an error where an `-o` or
    /// `-p` comes first that lacks its argument. Flags on which the program stops
    /// (see `flag_panic`) are not admitted.
    pub fn run_options(&self) -> (res: Result<RunOptions, FlagError>)
        requires
            !(resolved_options(
                ref_views(self.flags@),
                self.defaults.pattern@,
                self.defaults.re_index,
                self.defaults.threads,
            ) matches Err(e) && fatal(e)),
        ensures
            options_result_view(res) == resolved_options(
                ref_views(self.flags@),
                self.defaults.pattern@,
                self.defaults.re_index,
                self.defaults.threads,
            ),
            res matches Err(e) ==> e == FlagError::NoOutputDir || e == FlagError::NoPattern,
    {
        self.resolve()
    }

    /// The error on which reading the flags stops the program, if any: a thread
    /// count, delay or cycle count that holds a digit but does not parse, or
    /// `-c` together with `-k`.
    pub fn flag_panic(&self) -> (res: Option<FlagError>)
        ensures
            match res {
                Some(e) => fatal(e) && resolved_options(
                    ref_views(self.flags@),
                    self.defaults.pattern@,
                    self.defaults.re_index,
                    self.defaults.threads,
                ) == Err::<OptionsModel, FlagError>(e),
                None => !(resolved_options(
                    ref_views(self.flags@),
                    self.defaults.pattern@,
                    self.defaults.re_index,
                    self.defaults.threads,
                ) matches Err(e) && fatal(e)),
            },
    {
        match self.resolve() {
            Err(e) => if e.is_fatal() {
                Some(e)
            } else {
                None
            },
            Ok(_) => None,
        }
    }

    fn resolve(&self) -> (res: Result<RunOptions, FlagError>)
        ensures
            options_result_view(res) == resolved_options(
                ref_views(self.flags@),
                self.defaults.pattern@,
                self.defaults.re_index,
                self.defaults.threads,
            ),
    {
        let flags = &self.flags;
        let ghost fs = ref_views(flags@);
        let re_index = self.defaults.re_index;
        let default_threads = self.defaults.threads;
        let mut o = RunOptions {
            recursive: false,
            cc_flag: false,
            kc_flag: false,
            out_dir: String::new(),
            pattern: self.defaults.pattern.clone(),
            watch_delay: WatchDelay::Off,
            cycles_per_refresh: 0,
            threads: 1,
            multithreaded: false,
        };
        let n = flags.len();
        let mut i: usize = 0;
        while i < n
            invariant
                n == flags@.len(),
                fs == ref_views(flags@),
                fs == ref_views(self.flags@),
                re_index == self.defaults.re_index,
                default_threads == self.defaults.threads,
                i <= n,
                flags_from(fs, 0, initial_options(self.defaults.pattern@), re_index, default_threads)
                    == flags_from(fs, i as int, o.view(), re_index, default_threads),
            decreases n - i,
        {
            let flag: &String = flags[i];
            assert(fs[i as int] == flag@);
            let next = if i + 1 < n {
                Some(flags[i + 1])
            } else {
                None
            };
            assert(ref_view(next) == flag_at(fs, i + 1));
            let ghost before = o.view();
            if same_text(flag.as_str(), "-r") {
                o.recursive = true;
            } else if same_text(flag.as_str(), "-c") {
                o.cc_flag = true;
            } else if same_text(flag.as_str(), "-k") {
                o.kc_flag = true;
            } else if same_text(flag.as_str(), "-o") {
                match word_flag(next) {
                    Some(d) => {
                        o.out_dir = d;
                    },
                    None => {
                        return Err(FlagError::NoOutputDir);
                    },
                }
            } else if same_text(flag.as_str(), "-p") {
                match word_flag(next) {
                    Some(p) => {
                        o.pattern = p;
                    },
                    None => {
                        return Err(FlagError::NoPattern);
                    },
                }
            } else if same_text(flag.as_str(), "-m") {
                match number_flag(next, default_threads, FlagError::BadThreads) {
                    Ok(t) => {
                        o.threads = t;
                        o.multithreaded = true;
                    },
                    Err(e) => {
                        return Err(e);
                    },
                }
            } else if same_text(flag.as_str(), "-w") {
                let after = if i + 1 < n && i + 2 < n {
                    Some(flags[i + 2])
                } else {
                    None
                };
                assert(ref_view(after) == flag_at(fs, i + 2));
                match watch_delay_from(next) {
                    Ok(d) => match number_flag(after, re_index, FlagError::BadCycles) {
                        Ok(c) => {
                            o.watch_delay = d;
                            o.cycles_per_refresh = c;
                        },
                        Err(e) => {
                            return Err(e);
                        },
                    },
                    Err(e) => {
                        return Err(e);
                    },
                }
            }
            assert(flag_step(fs, i as int, before, re_index, default_threads) == Ok::<
                OptionsModel,
                FlagError,
            >(o.view()));
            i = i + 1;
        }
        if o.cc_flag && o.kc_flag {
            return Err(FlagError::CamelAndKebab);
        }
        Ok(o)
    }
}

} // verus!
