//! Branching-variable selection.
//!
//! Each policy receives the dimension `n`, the indices already fixed at the
//! current node, and — where the policy ranks variables — a per-variable
//! 64-bit key. Keys stand for real-valued scores through an order-preserving
//! encoding chosen by the caller, so comparing keys compares scores. Every
//! policy fails with `ExhaustedBranchSpace` exactly when all of `[0, n)` is
//! fixed.

use vstd::prelude::*;
use crate::rng::{JsfRng, jsf_stream};

verus! {

/// The five interchangeable policies for choosing the next branching
/// variable.
#[derive(Clone, Copy, PartialEq, Eq, Structural, Debug)]
pub enum BranchStrategy {
    FirstNotFixed,
    MostViolated,
    Random,
    WorstApproximation,
    BestApproximation,
}

/// The single failure of the selector: a branching decision was requested
/// although every variable in `[0, n)` is already fixed.
#[derive(Clone, Copy, PartialEq, Eq, Structural, Debug)]
pub enum BranchError {
    ExhaustedBranchSpace,
}

/// Every variable in `[0, n)` is a key of the fixed set.
pub open spec fn all_fixed(fixed: Seq<usize>, n: usize) -> bool {
    forall|j: usize| j < n ==> fixed.contains(j)
}

/// Whether variable `i` is still free to branch on.
pub open spec fn unfixed(fixed: Seq<usize>, n: usize, i: usize) -> bool {
    i < n && !fixed.contains(i)
}

/// Membership scan over the fixed-variable keys.
fn is_fixed(fixed: &Vec<usize>, i: usize) -> (r: bool)
    ensures
        r == fixed@.contains(i),
{
    let mut k: usize = 0;
    while k < fixed.len()
        invariant
            k <= fixed@.len(),
            forall|m: int| 0 <= m < k ==> fixed@[m] != i,
        decreases fixed@.len() - k,
    {
        if fixed[k] == i {
            return true;
        }
        k += 1;
    }
    false
}

/// Returns the smallest index in `[0, n)` that is not fixed, and fails
/// exactly when every index is fixed.
pub fn first_not_fixed(n: usize, fixed: &Vec<usize>) -> (r: Result<usize, BranchError>)
    ensures
        match r {
            Ok(i) => unfixed(fixed@, n, i) && forall|j: usize| j < i ==> fixed@.contains(j),
            Err(e) => all_fixed(fixed@, n) && e == BranchError::ExhaustedBranchSpace,
        },
{
    let mut i: usize = 0;
    while i < n
        invariant
            i <= n,
            forall|j: usize| j < i ==> fixed@.contains(j),
        decreases n - i,
    {
        if !is_fixed(fixed, i) {
            return Ok(i);
        }
        i += 1;
    }
    Err(BranchError::ExhaustedBranchSpace)
}

/// The result `i` of the most-violated policy: among unfixed indices its
/// violation key is minimal, and of the indices attaining the minimum it is
/// the last in scan order (the scan replaces its candidate on `<=`).
pub open spec fn most_violated_selects(n: usize, fixed: Seq<usize>, violation: Seq<u64>, i: usize) -> bool {
    &&& unfixed(fixed, n, i)
    &&& forall|j: usize| unfixed(fixed, n, j) ==> violation[i as int] <= violation[j as int]
    &&& forall|j: usize| unfixed(fixed, n, j) && violation[j as int] == violation[i as int] ==> j <= i
}

/// Returns the unfixed index whose solution entry sits closest to one half.
///
/// `violation[i]` is an order-preserving key for the distance of entry `i`
/// from one half; the caller encodes it. Ties keep the later index, because
/// a candidate is replaced whenever its key is less than or equal to the
/// best seen. Fails exactly when every index is fixed.
pub fn most_violated(n: usize, fixed: &Vec<usize>, violation: &Vec<u64>) -> (r: Result<
    usize,
    BranchError,
>)
    requires
        violation@.len() == n,
    ensures
        match r {
            Ok(i) => most_violated_selects(n, fixed@, violation@, i),
            Err(e) => all_fixed(fixed@, n) && e == BranchError::ExhaustedBranchSpace,
        },
{
    let mut found = false;
    let mut best: u64 = 0;
    let mut best_idx: usize = 0;
    let mut i: usize = 0;
    while i < n
        invariant
            i <= n,
            violation@.len() == n,
            !found ==> forall|j: usize| j < i ==> fixed@.contains(j),
            found ==> unfixed(fixed@, n, best_idx) && best_idx < i && best == violation@[best_idx as int],
            found ==> forall|j: usize| j < i && unfixed(fixed@, n, j) ==> best <= violation@[j as int],
            found ==> forall|j: usize|
                j < i && unfixed(fixed@, n, j) && violation@[j as int] == best ==> j <= best_idx,
        decreases n - i,
    {
        if !is_fixed(fixed, i) {
            if !found || violation[i] <= best {
                found = true;
                best = violation[i];
                best_idx = i;
            }
        }
        i += 1;
    }
    if found {
        Ok(best_idx)
    } else {
        Err(BranchError::ExhaustedBranchSpace)
    }
}

/// Where the circular scan of the random policy begins: the first draw of
/// the generator seeded with `seed`, reduced modulo `n`.
pub open spec fn random_start(n: usize, seed: u64) -> int
    recommends
        n > 0,
{
    jsf_stream(seed, 0) as int % n as int
}

/// The result `i` of the random policy: the first unfixed index at or after
/// the starting point, wrapping around to the front of the range when the
/// tail holds none.
pub open spec fn random_selects(n: usize, fixed: Seq<usize>, seed: u64, i: usize) -> bool {
    let start = random_start(n, seed);
    &&& unfixed(fixed, n, i)
    &&& i >= start ==> forall|j: usize| start <= j < i ==> fixed.contains(j)
    &&& i < start ==> (forall|j: usize| start <= j < n ==> fixed.contains(j)) && (forall|j: usize|
        j < i ==> fixed.contains(j))
}

/// Returns the first unfixed index found by scanning circularly from a
/// starting point drawn from the generator seeded with `seed`; the same
/// seed and fixed set always give the same index. Fails exactly when every
/// index is fixed.
pub fn random(n: usize, fixed: &Vec<usize>, seed: u64) -> (r: Result<usize, BranchError>)
    ensures
        match r {
            Ok(i) => random_selects(n, fixed@, seed, i),
            Err(e) => all_fixed(fixed@, n) && e == BranchError::ExhaustedBranchSpace,
        },
{
    if n == 0 {
        return Err(BranchError::ExhaustedBranchSpace);
    }
    let mut rng = JsfRng::new(seed);
    let draw = rng.next_u64();
    let start = (draw % (n as u64)) as usize;
    let mut i: usize = start;
    while i < n
        invariant
            start <= i <= n,
            start == random_start(n, seed),
            forall|j: usize| start <= j < i ==> fixed@.contains(j),
        decreases n - i,
    {
        if !is_fixed(fixed, i) {
            return Ok(i);
        }
        i += 1;
    }
    let mut k: usize = 0;
    while k < start
        invariant
            k <= start < n,
            start == random_start(n, seed),
            forall|j: usize| start <= j < n ==> fixed@.contains(j),
            forall|j: usize| j < k ==> fixed@.contains(j),
        decreases start - k,
    {
        if !is_fixed(fixed, k) {
            return Ok(k);
        }
        k += 1;
    }
    Err(BranchError::ExhaustedBranchSpace)
}

/// The random policy is reproducible: for one dimension, fixed set and
/// seed its contract admits a single index, so two calls with the same
/// inputs return the same variable.
pub proof fn lemma_random_deterministic(
    n: usize,
    fixed: Seq<usize>,
    seed: u64,
    i1: usize,
    i2: usize,
)
    requires
        random_selects(n, fixed, seed, i1),
        random_selects(n, fixed, seed, i2),
    ensures
        i1 == i2,
{
    let start = random_start(n, seed);
    if i1 >= start && i2 >= start {
        if i1 < i2 {
            assert(fixed.contains(i1));
        } else if i2 < i1 {
            assert(fixed.contains(i2));
        }
    } else if i1 < start && i2 < start {
        if i1 < i2 {
            assert(fixed.contains(i1));
        } else if i2 < i1 {
            assert(fixed.contains(i2));
        }
    } else if i1 >= start && i2 < start {
        assert(fixed.contains(i1));
    } else {
        assert(fixed.contains(i2));
    }
}

/// The smaller of a variable's two flip keys: its best-case objective
/// change.
pub open spec fn pair_min(a: u64, b: u64) -> u64 {
    if a <= b {
        a
    } else {
        b
    }
}

/// The larger of a variable's two flip keys: its worst-case objective
/// change.
pub open spec fn pair_max(a: u64, b: u64) -> u64 {
    if a >= b {
        a
    } else {
        b
    }
}

/// The result `i` of the worst-approximation policy: among unfixed indices
/// the smaller of its two flip keys is maximal, and of the indices
/// attaining the maximum it is the first in scan order (the scan replaces
/// its candidate only on strict `>`).
pub open spec fn worst_approximation_selects(
    n: usize,
    fixed: Seq<usize>,
    zero_flip: Seq<u64>,
    one_flip: Seq<u64>,
    i: usize,
) -> bool {
    &&& unfixed(fixed, n, i)
    &&& forall|j: usize|
        unfixed(fixed, n, j) ==> pair_min(zero_flip[j as int], one_flip[j as int]) <= pair_min(
            zero_flip[i as int],
            one_flip[i as int],
        )
    &&& forall|j: usize|
        unfixed(fixed, n, j) && pair_min(zero_flip[j as int], one_flip[j as int]) == pair_min(
            zero_flip[i as int],
            one_flip[i as int],
        ) ==> i <= j
}

/// Returns the unfixed variable whose more favorable flip still raises the
/// objective the most, pushing the relaxation bound up as fast as possible.
///
/// `zero_flip[i]` and `one_flip[i]` are order-preserving keys for the
/// estimated objective change of forcing variable `i` to zero or one. Ties
/// keep the earlier index, because a candidate is replaced only on strict
/// improvement. Fails exactly when every index is fixed.
pub fn worst_approximation(
    n: usize,
    fixed: &Vec<usize>,
    zero_flip: &Vec<u64>,
    one_flip: &Vec<u64>,
) -> (r: Result<usize, BranchError>)
    requires
        zero_flip@.len() == n,
        one_flip@.len() == n,
    ensures
        match r {
            Ok(i) => worst_approximation_selects(n, fixed@, zero_flip@, one_flip@, i),
            Err(e) => all_fixed(fixed@, n) && e == BranchError::ExhaustedBranchSpace,
        },
{
    let mut found = false;
    let mut best: u64 = 0;
    let mut best_idx: usize = 0;
    let mut i: usize = 0;
    while i < n
        invariant
            i <= n,
            zero_flip@.len() == n,
            one_flip@.len() == n,
            !found ==> forall|j: usize| j < i ==> fixed@.contains(j),
            found ==> unfixed(fixed@, n, best_idx) && best_idx < i && best == pair_min(
                zero_flip@[best_idx as int],
                one_flip@[best_idx as int],
            ),
            found ==> forall|j: usize|
                j < i && unfixed(fixed@, n, j) ==> pair_min(
                    zero_flip@[j as int],
                    one_flip@[j as int],
                ) <= best,
            found ==> forall|j: usize|
                j < i && unfixed(fixed@, n, j) && pair_min(
                    zero_flip@[j as int],
                    one_flip@[j as int],
                ) == best ==> best_idx <= j,
        decreases n - i,
    {
        if !is_fixed(fixed, i) {
            let key = if zero_flip[i] <= one_flip[i] {
                zero_flip[i]
            } else {
                one_flip[i]
            };
            if !found || key > best {
                found = true;
                best = key;
                best_idx = i;
            }
        }
        i += 1;
    }
    if found {
        Ok(best_idx)
    } else {
        Err(BranchError::ExhaustedBranchSpace)
    }
}

/// The result `i` of the best-approximation policy: among unfixed indices
/// the larger of its two flip keys is minimal, and of the indices attaining
/// the minimum it is the last in scan order (the scan replaces its
/// candidate on `<=`).
pub open spec fn best_approximation_selects(
    n: usize,
    fixed: Seq<usize>,
    zero_flip: Seq<u64>,
    one_flip: Seq<u64>,
    i: usize,
) -> bool {
    &&& unfixed(fixed, n, i)
    &&& forall|j: usize|
        unfixed(fixed, n, j) ==> pair_max(zero_flip[i as int], one_flip[i as int]) <= pair_max(
            zero_flip[j as int],
            one_flip[j as int],
        )
    &&& forall|j: usize|
        unfixed(fixed, n, j) && pair_max(zero_flip[j as int], one_flip[j as int]) == pair_max(
            zero_flip[i as int],
            one_flip[i as int],
        ) ==> j <= i
}

/// Returns the unfixed variable whose less favorable flip raises the
/// objective the least, keeping the relaxation bound low and deferring hard
/// decisions.
///
/// Keys are as in `worst_approximation`. Ties keep the later index, because
/// a candidate is replaced whenever its key is less than or equal to the
/// best seen. Fails exactly when every index is fixed.
pub fn best_approximation(
    n: usize,
    fixed: &Vec<usize>,
    zero_flip: &Vec<u64>,
    one_flip: &Vec<u64>,
) -> (r: Result<usize, BranchError>)
    requires
        zero_flip@.len() == n,
        one_flip@.len() == n,
    ensures
        match r {
            Ok(i) => best_approximation_selects(n, fixed@, zero_flip@, one_flip@, i),
            Err(e) => all_fixed(fixed@, n) && e == BranchError::ExhaustedBranchSpace,
        },
{
    let mut found = false;
    let mut best: u64 = 0;
    let mut best_idx: usize = 0;
    let mut i: usize = 0;
    while i < n
        invariant
            i <= n,
            zero_flip@.len() == n,
            one_flip@.len() == n,
            !found ==> forall|j: usize| j < i ==> fixed@.contains(j),
            found ==> unfixed(fixed@, n, best_idx) && best_idx < i && best == pair_max(
                zero_flip@[best_idx as int],
                one_flip@[best_idx as int],
            ),
            found ==> forall|j: usize|
                j < i && unfixed(fixed@, n, j) ==> best <= pair_max(
                    zero_flip@[j as int],
                    one_flip@[j as int],
                ),
            found ==> forall|j: usize|
                j < i && unfixed(fixed@, n, j) && pair_max(
                    zero_flip@[j as int],
                    one_flip@[j as int],
                ) == best ==> j <= best_idx,
        decreases n - i,
    {
        if !is_fixed(fixed, i) {
            let key = if zero_flip[i] >= one_flip[i] {
                zero_flip[i]
            } else {
                one_flip[i]
            };
            if !found || key <= best {
                found = true;
                best = key;
                best_idx = i;
            }
        }
        i += 1;
    }
    if found {
        Ok(best_idx)
    } else {
        Err(BranchError::ExhaustedBranchSpace)
    }
}

/// The worst-approximation and best-approximation policies select the same
/// variable only when that variable's pair of flip keys is nested inside
/// every other unfixed variable's pair: its best case is at least each of
/// theirs and its worst case at most each of theirs. In particular the two
/// policies agree when the optima are tied across all unfixed variables,
/// and whenever some unfixed variable breaks the nesting they must differ.
pub proof fn lemma_worst_best_agree_only_nested(
    n: usize,
    fixed: Seq<usize>,
    zero_flip: Seq<u64>,
    one_flip: Seq<u64>,
    i: usize,
)
    requires
        worst_approximation_selects(n, fixed, zero_flip, one_flip, i),
        best_approximation_selects(n, fixed, zero_flip, one_flip, i),
    ensures
        forall|j: usize|
            unfixed(fixed, n, j) ==> pair_min(zero_flip[j as int], one_flip[j as int]) <= pair_min(
                zero_flip[i as int],
                one_flip[i as int],
            ) && pair_max(zero_flip[i as int], one_flip[i as int]) <= pair_max(
                zero_flip[j as int],
                one_flip[j as int],
            ),
{
}

} // verus!
