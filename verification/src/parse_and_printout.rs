//! Splitting the CSS files among worker threads, and which files are parsed.
pub mod parse;
pub mod print;
pub mod str_ext;
pub mod text;

use crate::strings::{contains_text, has_text};
use vstd::prelude::*;

verus! {

/// A path is parsed unless it names a global style sheet.
pub open spec fn is_module(path: Seq<char>) -> bool {
    !has_text(path, "global"@)
}

/// Whether the CSS file at `path` is parsed: not when its path mentions `global`.
pub fn is_module_path(path: &String) -> (res: bool)
    ensures
        res == is_module(path@),
{
    !contains_text(path.as_str(), "global")
}

/// The paths that are parsed, in order: those that are no global style sheets.
pub open spec fn module_paths(paths: Seq<Seq<char>>) -> Seq<Seq<char>>
    decreases paths.len(),
{
    if paths.len() == 0 {
        Seq::empty()
    } else {
        let r = module_paths(paths.drop_last());
        if is_module(paths.last()) {
            r.push(paths.last())
        } else {
            r
        }
    }
}

/// Law: parsing a list of paths parses exactly its paths that mention no
/// `global`, in their order; dropping the global paths first changes nothing.
pub proof fn lemma_module_paths(paths: Seq<Seq<char>>)
    ensures
        forall|k: int| 0 <= k < module_paths(paths).len() ==> is_module(#[trigger] module_paths(paths)[k]),
        forall|k: int| 0 <= k < paths.len() && is_module(#[trigger] paths[k]) ==> module_paths(paths).contains(paths[k]),
        module_paths(module_paths(paths)) == module_paths(paths),
    decreases paths.len(),
{
    if paths.len() > 0 {
        let t = paths.drop_last();
        lemma_module_paths(t);
        let r = module_paths(t);
        let p = paths.last();
        assert forall|k: int| 0 <= k < module_paths(paths).len() implies is_module(#[trigger] module_paths(paths)[k]) by {
            if k < r.len() {
                assert(module_paths(paths)[k] == r[k]);
            }
        }
        assert forall|k: int| 0 <= k < paths.len() && is_module(#[trigger] paths[k]) implies module_paths(paths).contains(paths[k]) by {
            if k < paths.len() - 1 {
                assert(t[k] == paths[k]);
                let j = choose|j: int| 0 <= j < r.len() && r[j] == t[k];
                if is_module(p) {
                    assert(module_paths(paths)[j] == r[j]);
                }
            } else {
                assert(module_paths(paths)[r.len() as int] == p);
            }
        }
        if is_module(p) {
            assert(r.push(p).drop_last() =~= r);
        }
    }
}

/// The paths that are parsed: those without `global` in them, in order.
pub fn modules_of(paths: &Vec<String>) -> (res: Vec<String>)
    ensures
        res@.map_values(|s: String| s@) == module_paths(paths@.map_values(|s: String| s@)),
{
    let ghost views = paths@.map_values(|s: String| s@);
    let mut out: Vec<String> = Vec::new();
    let mut i: usize = 0;
    while i < paths.len()
        invariant
            i <= paths@.len(),
            views == paths@.map_values(|s: String| s@),
            out@.map_values(|s: String| s@) == module_paths(views.subrange(0, i as int)),
        decreases paths@.len() - i,
    {
        proof {
            let next = views.subrange(0, i + 1);
            assert(next.drop_last() =~= views.subrange(0, i as int));
            assert(next.last() == paths@[i as int]@);
        }
        if is_module_path(&paths[i]) {
            let ghost before = out@.map_values(|s: String| s@);
            out.push(paths[i].clone());
            assert(out@.map_values(|s: String| s@) =~= before.push(paths@[i as int]@));
        }
        i = i + 1;
    }
    assert(views.subrange(0, paths@.len() as int) =~= views);
    out
}

/// `n` divided by `t`, rounded up.
pub open spec fn ceil_div(n: int, t: int) -> int {
    (n + t - 1) / t
}

/// Position `k` of the paths, or their end where `k` lies beyond it.
pub open spec fn clamp(k: int, n: int) -> int {
    if k > n {
        n
    } else {
        k
    }
}

/// The slice bounds of the paths that each thread parses: thread `i` takes the
/// paths from `i * ceil(n / threads)` up to `(i + 1) * ceil(n / threads)`, both
/// bounds cut at the number of paths. The ranges cover the paths in order, so
/// every path goes to exactly one thread.
pub fn thread_ranges(num_of_paths: usize, threads: i32) -> (res: Vec<(usize, usize)>)
    requires
        0 <= threads <= num_of_paths,
    ensures
        res@.len() == threads,
        forall|i: int|
            0 <= i < res@.len() ==> (#[trigger] res@[i]).0 as int == clamp(
                i * ceil_div(num_of_paths as int, threads as int),
                num_of_paths as int,
            ) && res@[i].1 as int == clamp(
                (i + 1) * ceil_div(num_of_paths as int, threads as int),
                num_of_paths as int,
            ),
        forall|i: int| 0 <= i < res@.len() ==> (#[trigger] res@[i]).0 <= res@[i].1 <= num_of_paths,
        res@.len() > 0 ==> res@[0].0 == 0 && res@[res@.len() - 1].1 == num_of_paths,
        forall|i: int| 0 <= i < res@.len() - 1 ==> (#[trigger] res@[i]).1 == res@[i + 1].0,
{
    let mut res: Vec<(usize, usize)> = Vec::new();
    if threads == 0 {
        return res;
    }
    let t = threads as usize;
    let n = num_of_paths;
    let per = if n % t == 0 {
        n / t
    } else {
        assert(n / t < n || n == 0) by (nonlinear_arith)
            requires
                t >= 1,
                n % t != 0,
        ;
        n / t + 1
    };
    let ghost c = ceil_div(n as int, t as int);
    assert(per == c) by (nonlinear_arith)
        requires
            c == (n + t - 1) / (t as int),
            t >= 1,
            n % t == 0 ==> per == n / t,
            n % t != 0 ==> per == n / t + 1,
    ;
    assert(c >= 1) by (nonlinear_arith)
        requires
            c == (n + t - 1) / (t as int),
            t >= 1,
            n >= t,
    ;
    assert(t * c >= n) by (nonlinear_arith)
        requires
            c == (n + t - 1) / (t as int),
            t >= 1,
    ;
    // `reach` is where the previous thread's paths end.
    let mut reach: usize = 0;
    let mut i: usize = 0;
    while i < t
        invariant
            1 <= t <= n,
            t == threads,
            per == c,
            c >= 1,
            t * c >= n,
            i <= t,
            res@.len() == i,
            reach as int == clamp(i * c, n as int),
            forall|k: int|
                0 <= k < i ==> (#[trigger] res@[k]).0 as int == clamp(k * c, n as int)
                    && res@[k].1 as int == clamp((k + 1) * c, n as int),
        decreases t - i,
    {
        assert((i + 1) * c == i * c + c) by (nonlinear_arith);
        let start = reach;
        let end = if per > n - reach {
            n
        } else {
            reach + per
        };
        proof {
            if i * c > n {
                assert((i + 1) * c > n);
            }
        }
        res.push((start, end));
        reach = end;
        i = i + 1;
    }
    proof {
        assert forall|k: int| 0 <= k < res@.len() implies (#[trigger] res@[k]).0 <= res@[k].1 <= n by {
            assert((k + 1) * c == k * c + c) by (nonlinear_arith);
        }
        assert(0 * c == 0);
        assert((t - 1 + 1) * c == t * c);
    }
    res
}

} // verus!
