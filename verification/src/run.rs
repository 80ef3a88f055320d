//! Handing the found CSS files to worker threads.
pub mod get_file_paths;
pub mod parse_and_printout;
pub mod resolve_input;

use crate::parse_and_printout::ceil_div;
use vstd::prelude::*;

verus! {

/// The slice bounds that each thread is given: every thread starts at the first
/// path (the start is moved on only for a thread numbered `-1`) and thread `i`
/// ends `(i + 1) * ceil(n / threads)` paths in, or at the end.
pub fn thread_prefixes(num_of_paths: usize, threads: i32) -> (res: Vec<(usize, usize)>)
    requires
        0 <= threads <= num_of_paths,
    ensures
        res@.len() == threads,
        forall|i: int|
            0 <= i < res@.len() ==> (#[trigger] res@[i]).0 == 0 && res@[i].1 as int == (if (i + 1)
                * ceil_div(num_of_paths as int, threads as int) > num_of_paths {
                num_of_paths as int
            } else {
                (i + 1) * ceil_div(num_of_paths as int, threads as int)
            }),
{
    let mut res: Vec<(usize, usize)> = Vec::new();
    if threads == 0 {
        return res;
    }
    let t = threads as usize;
    let n = num_of_paths;
    let per = if n % t == 0 {
        n / t
    } else {
        assert(n / t < n || n == 0) by (nonlinear_arith)
            requires
                t >= 1,
                n % t != 0,
        ;
        n / t + 1
    };
    let ghost c = ceil_div(n as int, t as int);
    assert(per == c) by (nonlinear_arith)
        requires
            c == (n + t - 1) / (t as int),
            t >= 1,
            n % t == 0 ==> per == n / t,
            n % t != 0 ==> per == n / t + 1,
    ;
    let mut reach: usize = 0;
    let mut i: i32 = 0;
    while i < threads
        invariant
            t == threads,
            per == c,
            c >= 0,
            0 <= i <= threads,
            res@.len() == i,
            reach as int == (if i * c > n {
                n as int
            } else {
                i * c
            }),
            forall|k: int|
                0 <= k < i ==> (#[trigger] res@[k]).0 == 0 && res@[k].1 as int == (if (k + 1) * c > n {
                    n as int
                } else {
                    (k + 1) * c
                }),
        decreases threads - i,
    {
        assert((i + 1) * c == i * c + c) by (nonlinear_arith);
        let end = if per > n - reach {
            n
        } else {
            reach + per
        };
        proof {
            if i * c > n {
                assert((i + 1) * c > n) by (nonlinear_arith)
                    requires
                        i * c > n,
                        c >= 0,
                        (i + 1) * c == i * c + c,
                ;
            }
        }
        // The start moves on only where `!i == 0`, which holds for `i == -1` alone.
        let start: usize = if !i == 0 {
            assert(false) by (bit_vector)
                requires
                    !i == 0i32,
                    i >= 0i32,
            ;
            0
        } else {
            0
        };
        res.push((start, end));
        reach = end;
        i = i + 1;
    }
    res
}

} // verus!
