//! Sparse-matrix format adapter.
//!
//! The quadratic form arrives row-compressed and the convex relaxation
//! solver wants it column-compressed. Both forms carry their numeric
//! payloads as opaque 64-bit patterns; the conversion moves every stored
//! entry to its place in the other layout and changes no payload, so the
//! nonzero structure and the values survive exactly.

use vstd::prelude::*;

verus! {

/// A matrix in compressed-row form: `row_ptr[r] .. row_ptr[r + 1]` spans
/// the entries of row `r`, `col_idx` gives each entry's column and
/// `values` its payload.
pub struct CsrMatrix {
    pub nrows: usize,
    pub ncols: usize,
    pub row_ptr: Vec<usize>,
    pub col_idx: Vec<usize>,
    pub values: Vec<u64>,
}

/// A matrix in compressed-column form: `col_ptr[c] .. col_ptr[c + 1]`
/// spans the entries of column `c`, `row_idx` gives each entry's row and
/// `values` its payload.
pub struct CscMatrix {
    pub nrows: usize,
    pub ncols: usize,
    pub col_ptr: Vec<usize>,
    pub row_idx: Vec<usize>,
    pub values: Vec<u64>,
}

/// Well-formed compressed-row storage: pointer bounds are consistent and
/// each row's columns are strictly increasing, so an entry's place is
/// unique.
pub open spec fn csr_wf(m: CsrMatrix) -> bool {
    &&& m.row_ptr@.len() == m.nrows + 1
    &&& m.row_ptr@[0] == 0
    &&& m.row_ptr@[m.nrows as int] == m.col_idx@.len()
    &&& m.values@.len() == m.col_idx@.len()
    &&& forall|r: int| 0 <= r < m.nrows ==> #[trigger] m.row_ptr@[r] <= m.row_ptr@[r + 1]
    &&& forall|r: int| 0 <= r <= m.nrows ==> m.row_ptr@[r] <= m.col_idx@.len()
    &&& forall|k: int| 0 <= k < m.col_idx@.len() ==> m.col_idx@[k] < m.ncols
    &&& forall|r: int, k1: int, k2: int|
        0 <= r < m.nrows && #[trigger] m.row_ptr@[r] <= k1 < k2 < m.row_ptr@[r + 1]
            ==> #[trigger] m.col_idx@[k1] < #[trigger] m.col_idx@[k2]
}

/// Well-formed compressed-column storage, the transposed counterpart of
/// `csr_wf`.
pub open spec fn csc_wf(m: CscMatrix) -> bool {
    &&& m.col_ptr@.len() == m.ncols + 1
    &&& m.col_ptr@[0] == 0
    &&& m.col_ptr@[m.ncols as int] == m.row_idx@.len()
    &&& m.values@.len() == m.row_idx@.len()
    &&& forall|c: int| 0 <= c < m.ncols ==> #[trigger] m.col_ptr@[c] <= m.col_ptr@[c + 1]
    &&& forall|c: int| 0 <= c <= m.ncols ==> m.col_ptr@[c] <= m.row_idx@.len()
    &&& forall|k: int| 0 <= k < m.row_idx@.len() ==> m.row_idx@[k] < m.nrows
    &&& forall|c: int, k1: int, k2: int|
        0 <= c < m.ncols && #[trigger] m.col_ptr@[c] <= k1 < k2 < m.col_ptr@[c + 1]
            ==> #[trigger] m.row_idx@[k1] < #[trigger] m.row_idx@[k2]
}

/// Row `r` stores an entry in column `c`.
pub open spec fn csr_has(m: CsrMatrix, r: int, c: int) -> bool {
    exists|k: int| m.row_ptr@[r] <= k < m.row_ptr@[r + 1] && m.col_idx@[k] == c
}

/// The payload row `r` stores in column `c`.
pub open spec fn csr_at(m: CsrMatrix, r: int, c: int) -> u64 {
    m.values@[choose|k: int| m.row_ptr@[r] <= k < m.row_ptr@[r + 1] && m.col_idx@[k] == c]
}

/// Column `c` stores an entry in row `r`.
pub open spec fn csc_has(m: CscMatrix, r: int, c: int) -> bool {
    exists|k: int| m.col_ptr@[c] <= k < m.col_ptr@[c + 1] && m.row_idx@[k] == r
}

/// The payload column `c` stores in row `r`.
pub open spec fn csc_at(m: CscMatrix, r: int, c: int) -> u64 {
    m.values@[choose|k: int| m.col_ptr@[c] <= k < m.col_ptr@[c + 1] && m.row_idx@[k] == r]
}

/// In a well-formed row, the entry at storage index `k` is the entry of
/// its row and column: places are unique, so the lookup lands on `k`.
pub proof fn lemma_csr_at_place(m: CsrMatrix, r: int, k: int)
    requires
        csr_wf(m),
        0 <= r < m.nrows,
        m.row_ptr@[r] <= k < m.row_ptr@[r + 1],
    ensures
        csr_has(m, r, m.col_idx@[k] as int),
        csr_at(m, r, m.col_idx@[k] as int) == m.values@[k],
{
    let c = m.col_idx@[k] as int;
    assert(csr_has(m, r, c));
    let k2 = choose|k2: int| m.row_ptr@[r] <= k2 < m.row_ptr@[r + 1] && m.col_idx@[k2] == c;
    if k2 < k {
        assert(m.col_idx@[k2] < m.col_idx@[k]);
    } else if k2 > k {
        assert(m.col_idx@[k] < m.col_idx@[k2]);
    }
}

/// The column-compressed counterpart of `lemma_csr_at_place`.
pub proof fn lemma_csc_at_place(m: CscMatrix, c: int, k: int)
    requires
        csc_wf(m),
        0 <= c < m.ncols,
        m.col_ptr@[c] <= k < m.col_ptr@[c + 1],
    ensures
        csc_has(m, m.row_idx@[k] as int, c),
        csc_at(m, m.row_idx@[k] as int, c) == m.values@[k],
{
    let r = m.row_idx@[k] as int;
    assert(csc_has(m, r, c));
    let k2 = choose|k2: int| m.col_ptr@[c] <= k2 < m.col_ptr@[c + 1] && m.row_idx@[k2] == r;
    if k2 < k {
        assert(m.row_idx@[k2] < m.row_idx@[k]);
    } else if k2 > k {
        assert(m.row_idx@[k] < m.row_idx@[k2]);
    }
}

/// The payload of row `r` at column `c`, when row `r` stores one there.
fn find_in_row(m: &CsrMatrix, r: usize, c: usize) -> (res: Option<u64>)
    requires
        csr_wf(*m),
        r < m.nrows,
    ensures
        match res {
            Some(v) => csr_has(*m, r as int, c as int) && v == csr_at(*m, r as int, c as int),
            None => !csr_has(*m, r as int, c as int),
        },
{
    let lo = m.row_ptr[r];
    let hi = m.row_ptr[r + 1];
    let mut k: usize = lo;
    while k < hi
        invariant
            csr_wf(*m),
            r < m.nrows,
            lo == m.row_ptr@[r as int],
            hi == m.row_ptr@[r as int + 1],
            lo <= k <= hi,
            forall|k2: int| lo <= k2 < k ==> m.col_idx@[k2] != c,
        decreases hi - k,
    {
        if m.col_idx[k] == c {
            proof {
                lemma_csr_at_place(*m, r as int, k as int);
            }
            return Some(m.values[k]);
        }
        k += 1;
    }
    None
}

/// Runtime check of `csr_wf`, for storage that arrives from outside the
/// library: true exactly when the pointer bounds are consistent and every
/// row's columns are strictly increasing.
#[verifier::rlimit(60)]
pub fn csr_is_wf(m: &CsrMatrix) -> (r: bool)
    ensures
        r == csr_wf(*m),
{
    let len = m.row_ptr.len();
    if len == 0 || len - 1 != m.nrows {
        return false;
    }
    if m.row_ptr[0] != 0 {
        return false;
    }
    if m.row_ptr[m.nrows] != m.col_idx.len() {
        return false;
    }
    if m.values.len() != m.col_idx.len() {
        return false;
    }
    let mut r: usize = 0;
    while r < m.nrows
        invariant
            m.row_ptr@.len() == m.nrows + 1,
            r <= m.nrows,
            forall|rr: int| 0 <= rr < r ==> #[trigger] m.row_ptr@[rr] <= m.row_ptr@[rr + 1],
            forall|rr: int| 0 <= rr < r ==> #[trigger] m.row_ptr@[rr] <= m.col_idx@.len(),
        decreases m.nrows - r,
    {
        if m.row_ptr[r] > m.row_ptr[r + 1] {
            return false;
        }
        if m.row_ptr[r] > m.col_idx.len() {
            return false;
        }
        r += 1;
    }
    let mut k: usize = 0;
    while k < m.col_idx.len()
        invariant
            k <= m.col_idx@.len(),
            forall|kk: int| 0 <= kk < k ==> #[trigger] m.col_idx@[kk] < m.ncols,
        decreases m.col_idx@.len() - k,
    {
        if m.col_idx[k] >= m.ncols {
            return false;
        }
        k += 1;
    }
    let mut r2: usize = 0;
    while r2 < m.nrows
        invariant
            csr_wf_bounds(*m),
            r2 <= m.nrows,
            forall|rr: int, k1: int, k2: int|
                0 <= rr < r2 && #[trigger] m.row_ptr@[rr] <= k1 < k2 < m.row_ptr@[rr + 1]
                    ==> #[trigger] m.col_idx@[k1] < #[trigger] m.col_idx@[k2],
        decreases m.nrows - r2,
    {
        let lo = m.row_ptr[r2];
        let hi = m.row_ptr[r2 + 1];
        if hi > lo {
            let mut k2: usize = lo;
            while k2 < hi - 1
                invariant
                    csr_wf_bounds(*m),
                    r2 < m.nrows,
                    lo == m.row_ptr@[r2 as int],
                    hi == m.row_ptr@[r2 as int + 1],
                    lo < hi,
                    lo <= k2 < hi,
                    forall|ka: int, kb: int|
                        lo <= ka < kb <= k2 ==> #[trigger] m.col_idx@[ka] < #[trigger] m.col_idx@[kb],
                decreases hi - k2,
            {
                if m.col_idx[k2] >= m.col_idx[k2 + 1] {
                    return false;
                }
                k2 += 1;
            }
        }
        r2 += 1;
    }
    true
}

/// The bound clauses of `csr_wf`, everything but per-row sortedness.
pub open spec fn csr_wf_bounds(m: CsrMatrix) -> bool {
    &&& m.row_ptr@.len() == m.nrows + 1
    &&& m.row_ptr@[0] == 0
    &&& m.row_ptr@[m.nrows as int] == m.col_idx@.len()
    &&& m.values@.len() == m.col_idx@.len()
    &&& forall|r: int| 0 <= r < m.nrows ==> #[trigger] m.row_ptr@[r] <= m.row_ptr@[r + 1]
    &&& forall|r: int| 0 <= r <= m.nrows ==> m.row_ptr@[r] <= m.col_idx@.len()
    &&& forall|k: int| 0 <= k < m.col_idx@.len() ==> m.col_idx@[k] < m.ncols
}

/// Converts row-compressed storage to the column-compressed form the
/// relaxation solver expects. The result is well-formed, has the same
/// shape, and stores an entry at a row and column exactly when the input
/// does, with the same payload: no structural or numeric loss.
#[verifier::rlimit(80)]
pub fn csr_to_csc(m: &CsrMatrix) -> (r: CscMatrix)
    requires
        csr_wf(*m),
    ensures
        csc_wf(r),
        r.nrows == m.nrows,
        r.ncols == m.ncols,
        forall|i: int, j: int|
            0 <= i < m.nrows && 0 <= j < m.ncols ==> csc_has(r, i, j) == csr_has(*m, i, j),
        forall|i: int, j: int|
            0 <= i < m.nrows && 0 <= j < m.ncols && csr_has(*m, i, j) ==> csc_at(r, i, j) == csr_at(
                *m,
                i,
                j,
            ),
{
    let mut col_ptr: Vec<usize> = Vec::new();
    let mut row_idx: Vec<usize> = Vec::new();
    let mut vals: Vec<u64> = Vec::new();
    col_ptr.push(0);
    let mut c: usize = 0;
    while c < m.ncols
        invariant
            csr_wf(*m),
            c <= m.ncols,
            col_ptr@.len() == c + 1,
            col_ptr@[0] == 0,
            col_ptr@[c as int] == row_idx@.len(),
            vals@.len() == row_idx@.len(),
            forall|cc: int| 0 <= cc < c ==> #[trigger] col_ptr@[cc] <= col_ptr@[cc + 1],
            forall|cc: int| 0 <= cc <= c ==> col_ptr@[cc] <= row_idx@.len(),
            forall|k: int| 0 <= k < row_idx@.len() ==> row_idx@[k] < m.nrows,
            forall|cc: int, k1: int, k2: int|
                0 <= cc < c && #[trigger] col_ptr@[cc] <= k1 < k2 < col_ptr@[cc + 1]
                    ==> #[trigger] row_idx@[k1] < #[trigger] row_idx@[k2],
            forall|cc: int, rr: int|
                0 <= cc < c && 0 <= rr < m.nrows ==> (exists|k: int|
                    col_ptr@[cc] <= k < col_ptr@[cc + 1] && row_idx@[k] == rr) == csr_has(
                    *m,
                    rr,
                    cc,
                ),
            forall|cc: int, k: int|
                0 <= cc < c && #[trigger] col_ptr@[cc] <= k < col_ptr@[cc + 1] ==> csr_has(
                    *m,
                    #[trigger] row_idx@[k] as int,
                    cc,
                ) && vals@[k] == csr_at(*m, row_idx@[k] as int, cc),
        decreases m.ncols - c,
    {
        let ghost col_start = row_idx@.len() as int;
        let mut r: usize = 0;
        while r < m.nrows
            invariant
                csr_wf(*m),
                r <= m.nrows,
                c < m.ncols,
                vals@.len() == row_idx@.len(),
                col_start <= row_idx@.len(),
                forall|k: int| 0 <= k < row_idx@.len() ==> row_idx@[k] < m.nrows,
                forall|k: int| col_start <= k < row_idx@.len() ==> row_idx@[k] < r,
                forall|k1: int, k2: int|
                    col_start <= k1 < k2 < row_idx@.len() ==> #[trigger] row_idx@[k1]
                        < #[trigger] row_idx@[k2],
                forall|rr: int|
                    0 <= rr < r ==> (exists|k: int|
                        col_start <= k < row_idx@.len() && row_idx@[k] == rr) == csr_has(
                        *m,
                        rr,
                        c as int,
                    ),
                forall|k: int|
                    col_start <= k < row_idx@.len() ==> csr_has(
                        *m,
                        #[trigger] row_idx@[k] as int,
                        c as int,
                    ) && vals@[k] == csr_at(*m, row_idx@[k] as int, c as int),
                col_ptr@.len() == c + 1,
                col_ptr@[0] == 0,
                col_ptr@[c as int] == col_start,
                forall|cc: int| 0 <= cc < c ==> #[trigger] col_ptr@[cc] <= col_ptr@[cc + 1],
                forall|cc: int| 0 <= cc <= c ==> col_ptr@[cc] <= col_start,
                forall|cc: int, k1: int, k2: int|
                    0 <= cc < c && #[trigger] col_ptr@[cc] <= k1 < k2 < col_ptr@[cc + 1]
                        ==> #[trigger] row_idx@[k1] < #[trigger] row_idx@[k2],
                forall|cc: int, rr: int|
                    0 <= cc < c && 0 <= rr < m.nrows ==> (exists|k: int|
                        col_ptr@[cc] <= k < col_ptr@[cc + 1] && row_idx@[k] == rr) == csr_has(
                        *m,
                        rr,
                        cc,
                    ),
                forall|cc: int, k: int|
                    0 <= cc < c && #[trigger] col_ptr@[cc] <= k < col_ptr@[cc + 1] ==> csr_has(
                        *m,
                        #[trigger] row_idx@[k] as int,
                        cc,
                    ) && vals@[k] == csr_at(*m, row_idx@[k] as int, cc),
            decreases m.nrows - r,
        {
            let ghost pre = row_idx@;
            let ghost prev = vals@;
            let found = find_in_row(m, r, c);
            match found {
                Some(v) => {
                    row_idx.push(r);
                    vals.push(v);
                    proof {
                        assert(row_idx@.len() == pre.len() + 1);
                        assert forall|k: int| 0 <= k < pre.len() implies row_idx@[k] == pre[k]
                            && vals@[k] == prev[k] by {}
                        assert(row_idx@[pre.len() as int] == r);
                        assert(vals@[pre.len() as int] == v);
                        assert forall|rr: int|
                            0 <= rr < r + 1 implies (exists|k: int|
                                col_start <= k < row_idx@.len() && row_idx@[k] == rr) == csr_has(
                                *m,
                                rr,
                                c as int,
                            ) by {
                            if rr == r {
                                assert(row_idx@[pre.len() as int] == rr);
                            } else if csr_has(*m, rr, c as int) {
                                let k0 = choose|k: int|
                                    col_start <= k < pre.len() && pre[k] == rr;
                                assert(row_idx@[k0] == rr);
                            } else {
                                assert forall|k: int|
                                    col_start <= k < row_idx@.len() implies row_idx@[k] != rr by {
                                    if k < pre.len() {
                                        assert(row_idx@[k] == pre[k]);
                                    }
                                }
                            }
                        }
                        assert forall|cc: int, rr: int|
                            0 <= cc < c && 0 <= rr < m.nrows implies (exists|k: int|
                                col_ptr@[cc] <= k < col_ptr@[cc + 1] && row_idx@[k] == rr)
                                == csr_has(*m, rr, cc) by {
                            assert(col_ptr@[cc + 1] <= col_start);
                            if csr_has(*m, rr, cc) {
                                let k0 = choose|k: int|
                                    col_ptr@[cc] <= k < col_ptr@[cc + 1] && pre[k] == rr;
                                assert(row_idx@[k0] == rr);
                            } else {
                                assert forall|k: int|
                                    col_ptr@[cc] <= k < col_ptr@[cc + 1] implies row_idx@[k]
                                    != rr by {
                                    assert(row_idx@[k] == pre[k]);
                                }
                            }
                        }
                    }
                },
                None => {
                    proof {
                        assert forall|rr: int|
                            0 <= rr < r + 1 implies (exists|k: int|
                                col_start <= k < row_idx@.len() && row_idx@[k] == rr) == csr_has(
                                *m,
                                rr,
                                c as int,
                            ) by {
                            if rr == r {
                                assert forall|k: int|
                                    col_start <= k < row_idx@.len() implies row_idx@[k] != rr by {}
                            }
                        }
                    }
                },
            }
            r += 1;
        }
        let ghost cp_pre = col_ptr@;
        col_ptr.push(row_idx.len());
        proof {
            assert(col_ptr@.len() == cp_pre.len() + 1);
            assert forall|cc: int| 0 <= cc < cp_pre.len() implies col_ptr@[cc] == cp_pre[cc] by {}
            assert(col_ptr@[c as int + 1] == row_idx@.len());
            assert forall|cc: int, rr: int|
                0 <= cc < c + 1 && 0 <= rr < m.nrows implies (exists|k: int|
                    col_ptr@[cc] <= k < col_ptr@[cc + 1] && row_idx@[k] == rr) == csr_has(
                    *m,
                    rr,
                    cc,
                ) by {
                if cc < c {
                    assert(col_ptr@[cc] == cp_pre[cc]);
                    assert(col_ptr@[cc + 1] == cp_pre[cc + 1]);
                } else {
                    assert(col_ptr@[cc] == col_start);
                }
            }
            assert forall|cc: int, k: int|
                0 <= cc < c + 1 && #[trigger] col_ptr@[cc] <= k < col_ptr@[cc + 1] implies csr_has(
                    *m,
                    #[trigger] row_idx@[k] as int,
                    cc,
                ) && vals@[k] == csr_at(*m, row_idx@[k] as int, cc) by {
                if cc < c {
                    assert(col_ptr@[cc] == cp_pre[cc]);
                    assert(col_ptr@[cc + 1] == cp_pre[cc + 1]);
                } else {
                    assert(col_ptr@[cc] == col_start);
                }
            }
        }
        c += 1;
    }
    let ghost cp = col_ptr@;
    let ghost ri = row_idx@;
    let ghost vl = vals@;
    let result = CscMatrix { nrows: m.nrows, ncols: m.ncols, col_ptr, row_idx, values: vals };
    proof {
        assert(result.col_ptr@ == cp && result.row_idx@ == ri && result.values@ == vl);
        assert forall|i: int, j: int|
            0 <= i < m.nrows && 0 <= j < m.ncols implies csc_has(result, i, j) == csr_has(
            *m,
            i,
            j,
        ) by {
            if csr_has(*m, i, j) {
                assert(exists|k: int| cp[j] <= k < cp[j + 1] && ri[k] == i);
                let k0 = choose|k: int| cp[j] <= k < cp[j + 1] && ri[k] == i;
                assert(result.col_ptr@[j] <= k0 < result.col_ptr@[j + 1] && result.row_idx@[k0]
                    == i);
                assert(csc_has(result, i, j));
            } else if csc_has(result, i, j) {
                let k0 = choose|k: int|
                    result.col_ptr@[j] <= k < result.col_ptr@[j + 1] && result.row_idx@[k] == i;
                assert(cp[j] <= k0 < cp[j + 1] && ri[k0] == i);
                assert(false);
            }
        }
        assert forall|i: int, j: int|
            0 <= i < m.nrows && 0 <= j < m.ncols && csr_has(*m, i, j) implies csc_at(result, i, j)
            == csr_at(*m, i, j) by {
            assert(csc_has(result, i, j));
            let k0 = choose|k: int|
                result.col_ptr@[j] <= k < result.col_ptr@[j + 1] && result.row_idx@[k] == i;
            assert(cp[j] <= k0 < cp[j + 1] && ri[k0] == i);
            assert(vl[k0] == csr_at(*m, ri[k0] as int, j));
            lemma_csc_at_place(result, j, k0);
        }
    }
    result
}

/// The payload of column `c` at row `r`, when column `c` stores one there.
fn find_in_col(m: &CscMatrix, c: usize, r: usize) -> (res: Option<u64>)
    requires
        csc_wf(*m),
        c < m.ncols,
    ensures
        match res {
            Some(v) => csc_has(*m, r as int, c as int) && v == csc_at(*m, r as int, c as int),
            None => !csc_has(*m, r as int, c as int),
        },
{
    let lo = m.col_ptr[c];
    let hi = m.col_ptr[c + 1];
    let mut k: usize = lo;
    while k < hi
        invariant
            csc_wf(*m),
            c < m.ncols,
            lo == m.col_ptr@[c as int],
            hi == m.col_ptr@[c as int + 1],
            lo <= k <= hi,
            forall|k2: int| lo <= k2 < k ==> m.row_idx@[k2] != r,
        decreases hi - k,
    {
        if m.row_idx[k] == r {
            proof {
                lemma_csc_at_place(*m, c as int, k as int);
            }
            return Some(m.values[k]);
        }
        k += 1;
    }
    None
}

/// Reads column-compressed storage back into the row-compressed form: the
/// inverse direction of `csr_to_csc`, with the symmetric contract. Running
/// the two in turn reproduces the original entries exactly.
#[verifier::rlimit(80)]
pub fn csc_to_csr(m: &CscMatrix) -> (r: CsrMatrix)
    requires
        csc_wf(*m),
    ensures
        csr_wf(r),
        r.nrows == m.nrows,
        r.ncols == m.ncols,
        forall|i: int, j: int|
            0 <= i < m.nrows && 0 <= j < m.ncols ==> csr_has(r, i, j) == csc_has(*m, i, j),
        forall|i: int, j: int|
            0 <= i < m.nrows && 0 <= j < m.ncols && csc_has(*m, i, j) ==> csr_at(r, i, j) == csc_at(
                *m,
                i,
                j,
            ),
{
    let mut row_ptr: Vec<usize> = Vec::new();
    let mut col_idx: Vec<usize> = Vec::new();
    let mut vals: Vec<u64> = Vec::new();
    row_ptr.push(0);
    let mut i: usize = 0;
    while i < m.nrows
        invariant
            csc_wf(*m),
            i <= m.nrows,
            row_ptr@.len() == i + 1,
            row_ptr@[0] == 0,
            row_ptr@[i as int] == col_idx@.len(),
            vals@.len() == col_idx@.len(),
            forall|rr: int| 0 <= rr < i ==> #[trigger] row_ptr@[rr] <= row_ptr@[rr + 1],
            forall|rr: int| 0 <= rr <= i ==> row_ptr@[rr] <= col_idx@.len(),
            forall|k: int| 0 <= k < col_idx@.len() ==> col_idx@[k] < m.ncols,
            forall|rr: int, k1: int, k2: int|
                0 <= rr < i && #[trigger] row_ptr@[rr] <= k1 < k2 < row_ptr@[rr + 1]
                    ==> #[trigger] col_idx@[k1] < #[trigger] col_idx@[k2],
            forall|rr: int, cc: int|
                0 <= rr < i && 0 <= cc < m.ncols ==> (exists|k: int|
                    row_ptr@[rr] <= k < row_ptr@[rr + 1] && col_idx@[k] == cc) == csc_has(
                    *m,
                    rr,
                    cc,
                ),
            forall|rr: int, k: int|
                0 <= rr < i && #[trigger] row_ptr@[rr] <= k < row_ptr@[rr + 1] ==> csc_has(
                    *m,
                    rr,
                    #[trigger] col_idx@[k] as int,
                ) && vals@[k] == csc_at(*m, rr, col_idx@[k] as int),
        decreases m.nrows - i,
    {
        let ghost row_start = col_idx@.len() as int;
        let mut c: usize = 0;
        while c < m.ncols
            invariant
                csc_wf(*m),
                c <= m.ncols,
                i < m.nrows,
                vals@.len() == col_idx@.len(),
                row_start <= col_idx@.len(),
                forall|k: int| 0 <= k < col_idx@.len() ==> col_idx@[k] < m.ncols,
                forall|k: int| row_start <= k < col_idx@.len() ==> col_idx@[k] < c,
                forall|k1: int, k2: int|
                    row_start <= k1 < k2 < col_idx@.len() ==> #[trigger] col_idx@[k1]
                        < #[trigger] col_idx@[k2],
                forall|cc: int|
                    0 <= cc < c ==> (exists|k: int|
                        row_start <= k < col_idx@.len() && col_idx@[k] == cc) == csc_has(
                        *m,
                        i as int,
                        cc,
                    ),
                forall|k: int|
                    row_start <= k < col_idx@.len() ==> csc_has(
                        *m,
                        i as int,
                        #[trigger] col_idx@[k] as int,
                    ) && vals@[k] == csc_at(*m, i as int, col_idx@[k] as int),
                row_ptr@.len() == i + 1,
                row_ptr@[0] == 0,
                row_ptr@[i as int] == row_start,
                forall|rr: int| 0 <= rr < i ==> #[trigger] row_ptr@[rr] <= row_ptr@[rr + 1],
                forall|rr: int| 0 <= rr <= i ==> row_ptr@[rr] <= row_start,
                forall|rr: int, k1: int, k2: int|
                    0 <= rr < i && #[trigger] row_ptr@[rr] <= k1 < k2 < row_ptr@[rr + 1]
                        ==> #[trigger] col_idx@[k1] < #[trigger] col_idx@[k2],
                forall|rr: int, cc: int|
                    0 <= rr < i && 0 <= cc < m.ncols ==> (exists|k: int|
                        row_ptr@[rr] <= k < row_ptr@[rr + 1] && col_idx@[k] == cc) == csc_has(
                        *m,
                        rr,
                        cc,
                    ),
                forall|rr: int, k: int|
                    0 <= rr < i && #[trigger] row_ptr@[rr] <= k < row_ptr@[rr + 1] ==> csc_has(
                        *m,
                        rr,
                        #[trigger] col_idx@[k] as int,
                    ) && vals@[k] == csc_at(*m, rr, col_idx@[k] as int),
            decreases m.ncols - c,
        {
            let ghost pre = col_idx@;
            let ghost prev = vals@;
            let found = find_in_col(m, c, i);
            match found {
                Some(v) => {
                    col_idx.push(c);
                    vals.push(v);
                    proof {
                        assert(col_idx@.len() == pre.len() + 1);
                        assert forall|k: int| 0 <= k < pre.len() implies col_idx@[k] == pre[k]
                            && vals@[k] == prev[k] by {}
                        assert(col_idx@[pre.len() as int] == c);
                        assert(vals@[pre.len() as int] == v);
                        assert forall|cc: int|
                            0 <= cc < c + 1 implies (exists|k: int|
                                row_start <= k < col_idx@.len() && col_idx@[k] == cc) == csc_has(
                                *m,
                                i as int,
                                cc,
                            ) by {
                            if cc == c {
                                assert(col_idx@[pre.len() as int] == cc);
                            } else if csc_has(*m, i as int, cc) {
                                let k0 = choose|k: int|
                                    row_start <= k < pre.len() && pre[k] == cc;
                                assert(col_idx@[k0] == cc);
                            } else {
                                assert forall|k: int|
                                    row_start <= k < col_idx@.len() implies col_idx@[k] != cc by {
                                    if k < pre.len() {
                                        assert(col_idx@[k] == pre[k]);
                                    }
                                }
                            }
                        }
                        assert forall|rr: int, cc: int|
                            0 <= rr < i && 0 <= cc < m.ncols implies (exists|k: int|
                                row_ptr@[rr] <= k < row_ptr@[rr + 1] && col_idx@[k] == cc)
                                == csc_has(*m, rr, cc) by {
                            assert(row_ptr@[rr + 1] <= row_start);
                            if csc_has(*m, rr, cc) {
                                let k0 = choose|k: int|
                                    row_ptr@[rr] <= k < row_ptr@[rr + 1] && pre[k] == cc;
                                assert(col_idx@[k0] == cc);
                            } else {
                                assert forall|k: int|
                                    row_ptr@[rr] <= k < row_ptr@[rr + 1] implies col_idx@[k]
                                    != cc by {
                                    assert(col_idx@[k] == pre[k]);
                                }
                            }
                        }
                    }
                },
                None => {
                    proof {
                        assert forall|cc: int|
                            0 <= cc < c + 1 implies (exists|k: int|
                                row_start <= k < col_idx@.len() && col_idx@[k] == cc) == csc_has(
                                *m,
                                i as int,
                                cc,
                            ) by {
                            if cc == c {
                                assert forall|k: int|
                                    row_start <= k < col_idx@.len() implies col_idx@[k] != cc by {}
                            }
                        }
                    }
                },
            }
            c += 1;
        }
        let ghost rp_pre = row_ptr@;
        row_ptr.push(col_idx.len());
        proof {
            assert(row_ptr@.len() == rp_pre.len() + 1);
            assert forall|rr: int| 0 <= rr < rp_pre.len() implies row_ptr@[rr] == rp_pre[rr] by {}
            assert(row_ptr@[i as int + 1] == col_idx@.len());
            assert forall|rr: int, cc: int|
                0 <= rr < i + 1 && 0 <= cc < m.ncols implies (exists|k: int|
                    row_ptr@[rr] <= k < row_ptr@[rr + 1] && col_idx@[k] == cc) == csc_has(
                    *m,
                    rr,
                    cc,
                ) by {
                if rr < i {
                    assert(row_ptr@[rr] == rp_pre[rr]);
                    assert(row_ptr@[rr + 1] == rp_pre[rr + 1]);
                } else {
                    assert(row_ptr@[rr] == row_start);
                }
            }
            assert forall|rr: int, k: int|
                0 <= rr < i + 1 && #[trigger] row_ptr@[rr] <= k < row_ptr@[rr + 1] implies csc_has(
                    *m,
                    rr,
                    #[trigger] col_idx@[k] as int,
                ) && vals@[k] == csc_at(*m, rr, col_idx@[k] as int) by {
                if rr < i {
                    assert(row_ptr@[rr] == rp_pre[rr]);
                    assert(row_ptr@[rr + 1] == rp_pre[rr + 1]);
                } else {
                    assert(row_ptr@[rr] == row_start);
                }
            }
        }
        i += 1;
    }
    let ghost rp = row_ptr@;
    let ghost ci = col_idx@;
    let ghost vl = vals@;
    let result = CsrMatrix { nrows: m.nrows, ncols: m.ncols, row_ptr, col_idx, values: vals };
    proof {
        assert(result.row_ptr@ == rp && result.col_idx@ == ci && result.values@ == vl);
        assert forall|i2: int, j: int|
            0 <= i2 < m.nrows && 0 <= j < m.ncols implies csr_has(result, i2, j) == csc_has(
            *m,
            i2,
            j,
        ) by {
            if csc_has(*m, i2, j) {
                assert(exists|k: int| rp[i2] <= k < rp[i2 + 1] && ci[k] == j);
                let k0 = choose|k: int| rp[i2] <= k < rp[i2 + 1] && ci[k] == j;
                assert(result.row_ptr@[i2] <= k0 < result.row_ptr@[i2 + 1] && result.col_idx@[k0]
                    == j);
                assert(csr_has(result, i2, j));
            } else if csr_has(result, i2, j) {
                let k0 = choose|k: int|
                    result.row_ptr@[i2] <= k < result.row_ptr@[i2 + 1] && result.col_idx@[k] == j;
                assert(rp[i2] <= k0 < rp[i2 + 1] && ci[k0] == j);
                assert(false);
            }
        }
        assert forall|i2: int, j: int|
            0 <= i2 < m.nrows && 0 <= j < m.ncols && csc_has(*m, i2, j) implies csr_at(
            result,
            i2,
            j,
        ) == csc_at(*m, i2, j) by {
            assert(csr_has(result, i2, j));
            let k0 = choose|k: int|
                result.row_ptr@[i2] <= k < result.row_ptr@[i2 + 1] && result.col_idx@[k] == j;
            assert(rp[i2] <= k0 < rp[i2 + 1] && ci[k0] == j);
            assert(vl[k0] == csc_at(*m, i2, ci[k0] as int));
            lemma_csr_at_place(result, i2, k0);
        }
    }
    result
}

/// Where row `r`'s storage segment begins.
pub open spec fn seg_start(m: CsrMatrix, r: int) -> int {
    m.row_ptr@[r] as int
}

/// How many entries row `r` stores.
pub open spec fn seg_len(m: CsrMatrix, r: int) -> int {
    m.row_ptr@[r + 1] - m.row_ptr@[r]
}

/// Two row-compressed matrices of the same shape store the same entries:
/// an entry stands at a row and column in one exactly when it does in the
/// other, and with the same payload.
pub open spec fn same_entries(a: CsrMatrix, b: CsrMatrix) -> bool {
    &&& a.nrows == b.nrows
    &&& a.ncols == b.ncols
    &&& forall|i: int, j: int|
        0 <= i < a.nrows && 0 <= j < a.ncols ==> #[trigger] csr_has(a, i, j) == #[trigger] csr_has(
            b,
            i,
            j,
        )
    &&& forall|i: int, j: int|
        0 <= i < a.nrows && 0 <= j < a.ncols && #[trigger] csr_has(a, i, j) ==> #[trigger] csr_at(
            a,
            i,
            j,
        ) == csr_at(b, i, j)
}

proof fn lemma_row_tail_equal(a: CsrMatrix, b: CsrMatrix, r: int, t: int)
    requires
        csr_wf(a),
        csr_wf(b),
        same_entries(a, b),
        0 <= r < a.nrows,
        0 <= t <= seg_len(a, r),
        t <= seg_len(b, r),
        forall|m: int|
            0 <= m < t ==> #[trigger] a.col_idx@[seg_start(a, r) + m] == b.col_idx@[
                seg_start(b, r) + m
            ],
    ensures
        seg_len(a, r) == seg_len(b, r),
        forall|m: int|
            t <= m < seg_len(a, r) ==> #[trigger] a.col_idx@[seg_start(a, r) + m] == b.col_idx@[
                seg_start(b, r) + m
            ] && a.values@[seg_start(a, r) + m] == b.values@[seg_start(b, r) + m],
    decreases seg_len(a, r) - t,
{
    let sa = seg_start(a, r);
    let sb = seg_start(b, r);
    let la = seg_len(a, r);
    let lb = seg_len(b, r);
    if t == la || t == lb {
        if t < lb {
            let c = b.col_idx@[sb + t] as int;
            lemma_csr_at_place(b, r, sb + t);
            assert(csr_has(a, r, c));
            let k = choose|k: int|
                a.row_ptr@[r] <= k < a.row_ptr@[r + 1] && a.col_idx@[k] == c;
            let mm = k - sa;
            assert(0 <= mm < t);
            assert(a.col_idx@[sa + mm] == b.col_idx@[sb + mm]);
            assert(b.col_idx@[sb + mm] < b.col_idx@[sb + t]);
            assert(false);
        }
        if t < la {
            let c = a.col_idx@[sa + t] as int;
            lemma_csr_at_place(a, r, sa + t);
            assert(csr_has(b, r, c));
            let k = choose|k: int|
                b.row_ptr@[r] <= k < b.row_ptr@[r + 1] && b.col_idx@[k] == c;
            let mm = k - sb;
            assert(0 <= mm < t);
            assert(b.col_idx@[sb + mm] == a.col_idx@[sa + mm]);
            assert(a.col_idx@[sa + mm] < a.col_idx@[sa + t]);
            assert(false);
        }
    } else {
        let c = a.col_idx@[sa + t] as int;
        lemma_csr_at_place(a, r, sa + t);
        assert(csr_has(b, r, c));
        let k = choose|k: int| b.row_ptr@[r] <= k < b.row_ptr@[r + 1] && b.col_idx@[k] == c;
        if k < sb + t {
            let mm = k - sb;
            assert(a.col_idx@[sa + mm] == b.col_idx@[sb + mm]);
            assert(a.col_idx@[sa + mm] < a.col_idx@[sa + t]);
            assert(false);
        }
        if k > sb + t {
            let d = b.col_idx@[sb + t] as int;
            assert(b.col_idx@[sb + t] < b.col_idx@[k]);
            lemma_csr_at_place(b, r, sb + t);
            assert(csr_has(a, r, d));
            let k2 = choose|k2: int|
                a.row_ptr@[r] <= k2 < a.row_ptr@[r + 1] && a.col_idx@[k2] == d;
            let mm = k2 - sa;
            if mm < t {
                assert(a.col_idx@[sa + mm] == b.col_idx@[sb + mm]);
                assert(b.col_idx@[sb + mm] < b.col_idx@[sb + t]);
                assert(false);
            } else if mm > t {
                assert(a.col_idx@[sa + t] < a.col_idx@[sa + mm]);
                assert(false);
            }
            assert(false);
        }
        assert(k == sb + t);
        assert(a.col_idx@[sa + t] == b.col_idx@[sb + t]);
        lemma_csr_at_place(b, r, sb + t);
        assert(a.values@[sa + t] == b.values@[sb + t]);
        lemma_row_tail_equal(a, b, r, t + 1);
    }
}

proof fn lemma_row_ptr_equal_up_to(a: CsrMatrix, b: CsrMatrix, r: int)
    requires
        csr_wf(a),
        csr_wf(b),
        same_entries(a, b),
        0 <= r <= a.nrows,
    ensures
        forall|rr: int| 0 <= rr <= r ==> #[trigger] a.row_ptr@[rr] == b.row_ptr@[rr],
    decreases r,
{
    if r > 0 {
        lemma_row_ptr_equal_up_to(a, b, r - 1);
        lemma_row_tail_equal(a, b, r - 1, 0);
    }
}

proof fn lemma_find_row(a: CsrMatrix, k: int, r: int)
    requires
        csr_wf(a),
        0 <= k < a.col_idx@.len(),
        0 <= r < a.nrows,
        a.row_ptr@[r] <= k,
    ensures
        exists|rr: int| r <= rr < a.nrows && #[trigger] a.row_ptr@[rr] <= k < a.row_ptr@[rr + 1],
    decreases a.nrows - r,
{
    if k < a.row_ptr@[r + 1] {
        assert(a.row_ptr@[r] <= k < a.row_ptr@[r + 1]);
    } else {
        if r + 1 == a.nrows {
            assert(false);
        }
        lemma_find_row(a, k, r + 1);
    }
}

/// Well-formed row-compressed storage is canonical: two matrices of the
/// same shape that store the same entries with the same payloads have
/// identical pointer, column and value arrays. Together with the entry
/// preservation of `csr_to_csc` and `csc_to_csr`, converting a matrix and
/// reading it back reproduces the original storage exactly.
pub proof fn lemma_csr_entries_determine(a: CsrMatrix, b: CsrMatrix)
    requires
        csr_wf(a),
        csr_wf(b),
        same_entries(a, b),
    ensures
        a.row_ptr@ == b.row_ptr@,
        a.col_idx@ == b.col_idx@,
        a.values@ == b.values@,
{
    lemma_row_ptr_equal_up_to(a, b, a.nrows as int);
    assert(a.col_idx@.len() == b.col_idx@.len());
    assert forall|k: int|
        0 <= k < a.col_idx@.len() implies a.col_idx@[k] == b.col_idx@[k] && a.values@[k]
        == b.values@[k] by {
        lemma_find_row(a, k, 0);
        let r = choose|rr: int|
            0 <= rr < a.nrows && #[trigger] a.row_ptr@[rr] <= k < a.row_ptr@[rr + 1];
        lemma_row_tail_equal(a, b, r, 0);
        assert(a.col_idx@[seg_start(a, r) + (k - seg_start(a, r))] == b.col_idx@[
            seg_start(b, r) + (k - seg_start(a, r))
        ]);
    }
    assert(a.row_ptr@ =~= b.row_ptr@);
    assert(a.col_idx@ =~= b.col_idx@);
    assert(a.values@ =~= b.values@);
}

} // verus!
