use vstd::prelude::*;

verus! {

/// Where entry `(r, c)` of a row-major matrix with `ncols` columns sits.
pub open spec fn flat_index(r: int, c: int, ncols: int) -> int {
    r * ncols + c
}

/// An in-bounds entry has an in-bounds flat position.
pub proof fn lemma_flat_index_bounds(r: int, c: int, nrows: int, ncols: int)
    requires
        0 <= r < nrows,
        0 <= c < ncols,
    ensures
        0 <= flat_index(r, c, ncols) < nrows * ncols,
{
    assert(0 <= r * ncols) by (nonlinear_arith)
        requires
            0 <= r,
            0 <= ncols,
    ;
    assert((r + 1) * ncols <= nrows * ncols) by (nonlinear_arith)
        requires
            r + 1 <= nrows,
            0 <= ncols,
    ;
    assert((r + 1) * ncols == r * ncols + ncols) by (nonlinear_arith);
}

/// Distinct in-bounds entries have distinct flat positions.
pub proof fn lemma_flat_index_distinct(r1: int, c1: int, r2: int, c2: int, nrows: int, ncols: int)
    requires
        0 <= r1 < nrows,
        0 <= c1 < ncols,
        0 <= r2 < nrows,
        0 <= c2 < ncols,
        r1 != r2 || c1 != c2,
    ensures
        flat_index(r1, c1, ncols) != flat_index(r2, c2, ncols),
{
    if r1 == r2 {
    } else if r1 < r2 {
        assert((r1 + 1) * ncols <= r2 * ncols) by (nonlinear_arith)
            requires
                r1 + 1 <= r2,
                0 <= ncols,
        ;
        assert((r1 + 1) * ncols == r1 * ncols + ncols) by (nonlinear_arith);
    } else {
        assert((r2 + 1) * ncols <= r1 * ncols) by (nonlinear_arith)
            requires
                r2 + 1 <= r1,
                0 <= ncols,
        ;
        assert((r2 + 1) * ncols == r2 * ncols + ncols) by (nonlinear_arith);
    }
}

/// A dense matrix of IEEE-754 binary64 bit patterns, stored row-major.
#[derive(Debug)]
pub struct Matrix {
    nrows: usize,
    ncols: usize,
    data: Vec<u64>,
}

impl Matrix {
    pub closed spec fn rows(&self) -> nat {
        self.nrows as nat
    }

    pub closed spec fn cols(&self) -> nat {
        self.ncols as nat
    }

    /// The entries, row after row.
    pub closed spec fn entries(&self) -> Seq<u64> {
        self.data@
    }

    /// The dimensions are machine sizes.
    pub proof fn lemma_dims_fit(&self)
        ensures
            self.rows() <= usize::MAX,
            self.cols() <= usize::MAX,
    {
    }

    pub open spec fn wf(&self) -> bool {
        &&& self.entries().len() == self.rows() * self.cols()
        &&& self.rows() * self.cols() <= usize::MAX
    }

    pub open spec fn at(&self, r: int, c: int) -> u64 {
        self.entries()[flat_index(r, c, self.cols() as int)]
    }

    /// Builds an `nrows × ncols` matrix from its entries given row after
    /// row; `None` when their number is not `nrows * ncols`.
    pub fn from_row_slice(nrows: usize, ncols: usize, data: &Vec<u64>) -> (r: Option<Matrix>)
        ensures
            r is Some <==> data@.len() == nrows * ncols,
            r matches Some(m) ==> m.wf() && m.rows() == nrows && m.cols() == ncols
                && m.entries() == data@,
    {
        let len: usize = data.len();
        match nrows.checked_mul(ncols) {
            Some(n) => {
                if len == n {
                    Some(Matrix { nrows, ncols, data: copy_words(data) })
                } else {
                    None
                }
            },
            None => {
                None
            },
        }
    }

    /// Builds an `nrows × ncols` matrix whose entries all hold `value`;
    /// `None` when `nrows * ncols` does not fit in a `usize`.
    pub fn from_element(nrows: usize, ncols: usize, value: u64) -> (r: Option<Matrix>)
        ensures
            r is Some <==> nrows * ncols <= usize::MAX,
            r matches Some(m) ==> m.wf() && m.rows() == nrows && m.cols() == ncols
                && m.entries() == Seq::new((nrows * ncols) as nat, |i: int| value),
    {
        match nrows.checked_mul(ncols) {
            Some(n) => Some(Matrix { nrows, ncols, data: filled(n, value) }),
            None => None,
        }
    }

    pub fn nrows(&self) -> (r: usize)
        ensures
            r == self.rows(),
    {
        self.nrows
    }

    pub fn ncols(&self) -> (r: usize)
        ensures
            r == self.cols(),
    {
        self.ncols
    }

    /// The entries, row after row.
    pub fn as_slice(&self) -> (r: &Vec<u64>)
        ensures
            r@ == self.entries(),
    {
        &self.data
    }

    /// Entry `(r, c)`.
    pub fn get(&self, r: usize, c: usize) -> (v: u64)
        requires
            self.wf(),
            r < self.rows(),
            c < self.cols(),
        ensures
            v == self.at(r as int, c as int),
    {
        proof {
            lemma_flat_index_bounds(r as int, c as int, self.rows() as int, self.cols() as int);
        }
        self.data[r * self.ncols + c]
    }

    /// Overwrites entry `(r, c)` with `v`, leaving every other entry as it was.
    pub fn set(&mut self, r: usize, c: usize, v: u64)
        requires
            old(self).wf(),
            r < old(self).rows(),
            c < old(self).cols(),
        ensures
            final(self).wf(),
            final(self).rows() == old(self).rows(),
            final(self).cols() == old(self).cols(),
            final(self).entries() == old(self).entries().update(
                flat_index(r as int, c as int, old(self).cols() as int),
                v,
            ),
    {
        proof {
            lemma_flat_index_bounds(r as int, c as int, self.rows() as int, self.cols() as int);
        }
        let i: usize = r * self.ncols + c;
        self.data.set(i, v);
    }
}

/// A fresh vector with the same words.
pub fn copy_words(v: &Vec<u64>) -> (r: Vec<u64>)
    ensures
        r@ == v@,
{
    let mut r: Vec<u64> = Vec::with_capacity(v.len());
    let mut i: usize = 0;
    while i < v.len()
        invariant
            i <= v@.len(),
            r@ == v@.subrange(0, i as int),
        decreases v@.len() - i,
    {
        r.push(v[i]);
        i = i + 1;
    }
    assert(r@ =~= v@);
    r
}

/// A vector of `n` copies of `value`.
pub fn filled(n: usize, value: u64) -> (r: Vec<u64>)
    ensures
        r@ == Seq::new(n as nat, |i: int| value),
{
    let mut r: Vec<u64> = Vec::with_capacity(n);
    let mut i: usize = 0;
    while i < n
        invariant
            i <= n,
            r@ =~= Seq::new(i as nat, |j: int| value),
        decreases n - i,
    {
        r.push(value);
        i = i + 1;
    }
    r
}

} // verus!
