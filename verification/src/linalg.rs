//! The dense square-matrix engine: construction, elementary row operations,
//! matrix-vector products, and Gauss-Jordan inversion without pivoting.
//!
//! A matrix is a list of columns of [`Num`] scalars; all arithmetic on the
//! entries goes through the named operations of [`crate::num`], so every
//! contract here pins the resulting entry texts exactly.

use vstd::prelude::*;

use crate::num::{
    add_of, div_of, mul_of, neg_of, num_add, num_div, num_is_zero, num_mul, num_neg, zero_of, Num,
};
use crate::SolveError;

verus! {

/// The views of a list of scalars.
pub open spec fn nums_view(s: Seq<Num>) -> Seq<Seq<char>> {
    s.map_values(|n: Num| n@)
}

/// The views of a list of columns.
pub open spec fn mat_view(cols: Seq<Vec<Num>>) -> Seq<Seq<Seq<char>>> {
    cols.map_values(|c: Vec<Num>| nums_view(c@))
}

/// The views of a list of names.
pub open spec fn strs_view(s: Seq<String>) -> Seq<Seq<char>> {
    s.map_values(|x: String| x@)
}

/// The dot product of two scalar lists of equal length, summed left to
/// right starting from zero.
pub open spec fn dot_of(a: Seq<Seq<char>>, b: Seq<Seq<char>>) -> Seq<char>
    decreases a.len(),
{
    if a.len() == 0 {
        "0"@
    } else {
        add_of(dot_of(a.drop_last(), b.drop_last()), mul_of(a.last(), b.last()))
    }
}

/// Returns the dot product of two given vectors.
pub fn vec_vec_dot(lhs: &Vec<Num>, rhs: &Vec<Num>) -> (r: Num)
    requires
        lhs@.len() == rhs@.len(),
    ensures
        r@ == dot_of(nums_view(lhs@), nums_view(rhs@)),
{
    let n = lhs.len();
    let mut acc = Num::new("0");
    for i in 0..n
        invariant
            n == lhs@.len(),
            n == rhs@.len(),
            acc@ == dot_of(nums_view(lhs@).take(i as int), nums_view(rhs@).take(i as int)),
    {
        let p = num_mul(&lhs[i], &rhs[i]);
        acc = num_add(&acc, &p);
        proof {
            assert(nums_view(lhs@).take(i + 1).drop_last() =~= nums_view(lhs@).take(i as int));
            assert(nums_view(rhs@).take(i + 1).drop_last() =~= nums_view(rhs@).take(i as int));
        }
    }
    proof {
        assert(nums_view(lhs@).take(n as int) =~= nums_view(lhs@));
        assert(nums_view(rhs@).take(n as int) =~= nums_view(rhs@));
    }
    acc
}

/// Scales a vector by the given value.
pub fn scale_vec(vec: Vec<Num>, scalar: Num) -> (r: Vec<Num>)
    ensures
        r@.len() == vec@.len(),
        forall|i: int| 0 <= i < vec@.len() ==> r@[i]@ == mul_of(vec@[i]@, scalar@),
{
    let n = vec.len();
    let mut res: Vec<Num> = Vec::new();
    for i in 0..n
        invariant
            n == vec@.len(),
            res@.len() == i,
            forall|k: int| 0 <= k < i ==> res@[k]@ == mul_of(vec@[k]@, scalar@),
    {
        res.push(num_mul(&vec[i], &scalar));
    }
    res
}

/// An n-by-n matrix: a list of `size` columns of `size` scalars each, and
/// optionally the variable name that each column stands for.
#[derive(Debug)]
pub struct NxN {
    size: usize,
    mat: Vec<Vec<Num>>,
    vars: Option<Vec<String>>,
}

impl NxN {
    /// The columns form a square matrix of the stated size, and the variable
    /// names, where present, are one per column.
    pub closed spec fn wf(self) -> bool {
        &&& self.mat@.len() == self.size
        &&& forall|i: int|
            0 <= i < self.mat@.len() ==> (#[trigger] self.mat@[i]@.len()) == self.size
        &&& match self.vars {
            Some(v) => v@.len() == self.size,
            None => true,
        }
    }

    /// The number of rows and of columns.
    pub closed spec fn spec_size(self) -> int {
        self.size as int
    }

    /// The entry texts, as a list of columns.
    pub closed spec fn m(self) -> Seq<Seq<Seq<char>>> {
        mat_view(self.mat@)
    }

    /// The views of the column names, where present.
    pub closed spec fn names(self) -> Option<Seq<Seq<char>>> {
        match self.vars {
            Some(v) => Some(strs_view(v@)),
            None => None,
        }
    }

    /// A well-formed matrix has `size` columns of `size` entries each.
    pub proof fn lemma_wf(self)
        requires
            self.wf(),
        ensures
            self.m().len() == self.spec_size(),
            forall|i: int|
                0 <= i < self.m().len() ==> (#[trigger] self.m()[i].len()) == self.spec_size(),
            match self.names() {
                Some(v) => v.len() == self.spec_size(),
                None => true,
            },
    {
    }

    /// The number of rows and of columns.
    pub fn size(&self) -> (r: usize)
        ensures
            r == self.spec_size(),
    {
        self.size
    }

    /// The variable names attached to the columns, if any.
    pub fn vars(&self) -> (r: &Option<Vec<String>>)
        ensures
            match r {
                Some(v) => self.names() == Some(strs_view(v@)),
                None => self.names() is None,
            },
    {
        &self.vars
    }

    /// Initializes an identity matrix of the specified size.
    pub fn identity(size: usize) -> (r: NxN)
        ensures
            r.wf(),
            r.spec_size() == size,
            r.m() =~~= identity_view(size as nat),
            r.names() is None,
    {
        let mut mat: Vec<Vec<Num>> = Vec::new();
        for i in 0..size
            invariant
                mat@.len() == i,
                forall|k: int| 0 <= k < i ==> (#[trigger] mat@[k]@.len()) == size,
                forall|k: int, j: int|
                    0 <= k < i && 0 <= j < size ==> mat@[k]@[j]@ == (if k == j {
                        "1"@
                    } else {
                        "0"@
                    }),
        {
            let mut col: Vec<Num> = Vec::new();
            for j in 0..size
                invariant
                    col@.len() == j,
                    forall|t: int|
                        0 <= t < j ==> col@[t]@ == (if i == t {
                            "1"@
                        } else {
                            "0"@
                        }),
            {
                if i == j {
                    col.push(Num::new("1"));
                } else {
                    col.push(Num::new("0"));
                }
            }
            mat.push(col);
        }
        NxN { size, mat, vars: None }
    }

    /// Initializes a matrix of given values from a list of columns.
    pub fn from_cols(size: usize, cols: Vec<Vec<Num>>, vars: Option<Vec<&str>>) -> (r: NxN)
        requires
            cols@.len() == size,
            forall|i: int| 0 <= i < cols@.len() ==> (#[trigger] cols@[i]@.len()) == size,
            match vars {
                Some(v) => v@.len() == size,
                None => true,
            },
        ensures
            r.wf(),
            r.spec_size() == size,
            r.m() == mat_view(cols@),
            match vars {
                Some(v) => r.names() == Some(v@.map_values(|x: &str| x@)),
                None => r.names() is None,
            },
    {
        match vars {
            Some(v) => {
                let n = v.len();
                let mut owned: Vec<String> = Vec::new();
                for i in 0..n
                    invariant
                        n == v@.len(),
                        owned@.len() == i,
                        forall|k: int| 0 <= k < i ==> (#[trigger] owned@[k]@) == v@[k]@,
                {
                    owned.push(v[i].to_owned());
                }
                let r = NxN { size, mat: cols, vars: Some(owned) };
                proof {
                    assert(strs_view(owned@) =~~= v@.map_values(|x: &str| x@));
                }
                r
            },
            None => NxN { size, mat: cols, vars: None },
        }
    }

    /// Mutates a row, scaling every entry of it by the given value.
    pub fn scale_row(&mut self, row: usize, scalar: &Num)
        requires
            old(self).wf(),
            row < old(self).spec_size(),
        ensures
            final(self).wf(),
            final(self).spec_size() == old(self).spec_size(),
            final(self).names() == old(self).names(),
            final(self).m() =~~= scale_row_view(old(self).m(), row as int, scalar@),
    {
        let n = self.size;
        let ghost m0 = self.mat@;
        for i in 0..n
            invariant
                n == self.size,
                row < n,
                self.wf(),
                self.size == old(self).size,
                self.vars == old(self).vars,
                m0 == old(self).mat@,
                forall|k: int, j: int|
                    0 <= k < n && 0 <= j < n && !(k < i && j == row)
                        ==> (#[trigger] self.mat@[k]@[j]) == m0[k]@[j],
                forall|k: int|
                    0 <= k < i ==> (#[trigger] self.mat@[k]@[row as int])@ == mul_of(
                        m0[k]@[row as int]@,
                        scalar@,
                    ),
        {
            let p = num_mul(&self.mat[i][row], scalar);
            let col = &mut self.mat[i];
            col.set(row, p);
        }
        proof {
            assert forall|k: int| 0 <= k < n implies self.m()[k] =~= scale_row_view(
                old(self).m(),
                row as int,
                scalar@,
            )[k] by {}
            assert(self.m() =~~= scale_row_view(old(self).m(), row as int, scalar@));
        }
    }

    /// Adds a given row vector to a row in the matrix.
    pub fn add_to_row(&mut self, row: usize, vec: &Vec<Num>)
        requires
            old(self).wf(),
            row < old(self).spec_size(),
            vec@.len() == old(self).spec_size(),
        ensures
            final(self).wf(),
            final(self).spec_size() == old(self).spec_size(),
            final(self).names() == old(self).names(),
            final(self).m() =~~= add_to_row_view(old(self).m(), row as int, nums_view(vec@)),
    {
        let n = self.size;
        let ghost m0 = self.mat@;
        for i in 0..n
            invariant
                n == self.size,
                row < n,
                vec@.len() == n,
                self.wf(),
                self.size == old(self).size,
                self.vars == old(self).vars,
                m0 == old(self).mat@,
                forall|k: int, j: int|
                    0 <= k < n && 0 <= j < n && !(k < i && j == row)
                        ==> (#[trigger] self.mat@[k]@[j]) == m0[k]@[j],
                forall|k: int|
                    0 <= k < i ==> (#[trigger] self.mat@[k]@[row as int])@ == add_of(
                        m0[k]@[row as int]@,
                        vec@[k]@,
                    ),
        {
            let p = num_add(&self.mat[i][row], &vec[i]);
            let col = &mut self.mat[i];
            col.set(row, p);
        }
        proof {
            assert forall|k: int| 0 <= k < n implies self.m()[k] =~= add_to_row_view(
                old(self).m(),
                row as int,
                nums_view(vec@),
            )[k] by {}
            assert(self.m() =~~= add_to_row_view(old(self).m(), row as int, nums_view(vec@)));
        }
    }

    /// Returns a row from the matrix.
    pub fn get_row(&self, row: usize) -> (r: Vec<Num>)
        requires
            self.wf(),
            row < self.spec_size(),
        ensures
            r@.len() == self.spec_size(),
            nums_view(r@) =~= row_view(self.m(), row as int),
    {
        let n = self.size;
        let mut res: Vec<Num> = Vec::new();
        for i in 0..n
            invariant
                n == self.spec_size(),
                row < n,
                self.wf(),
                res@.len() == i,
                forall|k: int| 0 <= k < i ==> (#[trigger] res@[k]@) == self.m()[k][row as int],
        {
            res.push(self.mat[i][row].dup());
        }
        res
    }

    /// Returns the matrix as its list of columns, consuming the `self` value
    /// in the process.
    pub fn to_vec(self) -> (r: Vec<Vec<Num>>)
        ensures
            mat_view(r@) == self.m(),
    {
        self.mat
    }
}

/// The identity pattern: one on the diagonal, zero elsewhere.
pub open spec fn identity_view(n: nat) -> Seq<Seq<Seq<char>>> {
    Seq::new(n, |i: int| Seq::new(n, |j: int| if i == j { "1"@ } else { "0"@ }))
}

/// Row `row` of a column-major matrix, as a list of entry texts.
pub open spec fn row_view(m: Seq<Seq<Seq<char>>>, row: int) -> Seq<Seq<char>> {
    Seq::new(m.len(), |i: int| m[i][row])
}

/// The matrix with every entry of row `row` scaled by `s`.
pub open spec fn scale_row_view(m: Seq<Seq<Seq<char>>>, row: int, s: Seq<char>) -> Seq<
    Seq<Seq<char>>,
> {
    Seq::new(m.len(), |i: int| m[i].update(row, mul_of(m[i][row], s)))
}

/// The matrix with the vector `v` added entrywise to row `row`.
pub open spec fn add_to_row_view(m: Seq<Seq<Seq<char>>>, row: int, v: Seq<Seq<char>>) -> Seq<
    Seq<Seq<char>>,
> {
    Seq::new(m.len(), |i: int| m[i].update(row, add_of(m[i][row], v[i])))
}

/// The scalar used to eliminate the entry of column `c` in row `r`: the
/// entry divided by the pivot, negated.
pub open spec fn elim_scalar(m: Seq<Seq<Seq<char>>>, c: int, r: int) -> Seq<char> {
    div_of(neg_of(m[c][r]), m[c][c])
}

/// Row `c` of the matrix scaled by `s`, the vector added to row `r` during
/// an elimination step.
pub open spec fn elim_vec(m: Seq<Seq<Seq<char>>>, c: int, s: Seq<char>) -> Seq<Seq<char>> {
    Seq::new(m.len(), |i: int| mul_of(m[i][c], s))
}

/// The elimination phase of Gauss-Jordan inversion, resumed at column `c`,
/// row `r`: every off-diagonal row entry is eliminated with a multiple of
/// the pivot row, the same operation mirrored onto the auxiliary matrix;
/// `None` the moment a required pivot is exactly zero.
pub open spec fn gj_phase1(
    m: Seq<Seq<Seq<char>>>,
    inv: Seq<Seq<Seq<char>>>,
    n: int,
    c: int,
    r: int,
) -> Option<(Seq<Seq<Seq<char>>>, Seq<Seq<Seq<char>>>)>
    decreases n - c, n - r,
{
    if c < 0 || r < 0 || c >= n {
        Some((m, inv))
    } else if r >= n {
        gj_phase1(m, inv, n, c + 1, 0)
    } else if r == c {
        gj_phase1(m, inv, n, c, r + 1)
    } else if zero_of(m[c][c]) {
        None
    } else {
        let s = elim_scalar(m, c, r);
        gj_phase1(
            add_to_row_view(m, r, elim_vec(m, c, s)),
            add_to_row_view(inv, r, elim_vec(inv, c, s)),
            n,
            c,
            r + 1,
        )
    }
}

/// The normalization phase of Gauss-Jordan inversion, resumed at row `i`:
/// every row is divided by its now isolated diagonal entry, mirrored onto
/// the auxiliary matrix; `None` where that entry is exactly zero.
pub open spec fn gj_phase2(
    m: Seq<Seq<Seq<char>>>,
    inv: Seq<Seq<Seq<char>>>,
    n: int,
    i: int,
) -> Option<(Seq<Seq<Seq<char>>>, Seq<Seq<Seq<char>>>)>
    decreases n - i,
{
    if i < 0 || i >= n {
        Some((m, inv))
    } else if zero_of(m[i][i]) {
        None
    } else {
        let s = div_of("1"@, m[i][i]);
        gj_phase2(scale_row_view(m, i, s), scale_row_view(inv, i, s), n, i + 1)
    }
}

/// What Gauss-Jordan elimination without pivoting makes of the columns `m`:
/// the columns of the inverse, or `None` where a required pivot is exactly
/// zero.
pub open spec fn gj_inverse(m: Seq<Seq<Seq<char>>>, n: int) -> Option<Seq<Seq<Seq<char>>>> {
    match gj_phase1(m, identity_view(n as nat), n, 0, 0) {
        None => None,
        Some((m1, i1)) => match gj_phase2(m1, i1, n, 0) {
            None => None,
            Some((m2, i2)) => Some(i2),
        },
    }
}

impl NxN {
    /// Inverts the matrix in place by Gauss-Jordan elimination without
    /// pivoting, mirroring each row operation onto an auxiliary identity
    /// matrix that becomes the inverse.  Fails with `SingularMatrix` the
    /// moment a required pivot is exactly zero - also in the normalization
    /// phase, where the matrix is then left mid-elimination rather than
    /// filled with the quotients of a division by zero.
    pub fn invert(&mut self) -> (res: Result<(), SolveError>)
        requires
            old(self).wf(),
        ensures
            final(self).wf(),
            final(self).spec_size() == old(self).spec_size(),
            final(self).names() == old(self).names(),
            match res {
                Ok(u) => gj_inverse(old(self).m(), old(self).spec_size()) == Some(final(self).m()),
                Err(e) => gj_inverse(old(self).m(), old(self).spec_size()) is None && e
                    == SolveError::SingularMatrix,
            },
    {
        let n = self.size;
        let mut inv = NxN::identity(n);
        for c in 0..n
            invariant
                n == self.size,
                self.wf(),
                inv.wf(),
                inv.spec_size() == n,
                inv.names() is None,
                self.size == old(self).size,
                self.names() == old(self).names(),
                gj_phase1(old(self).m(), identity_view(n as nat), n as int, 0, 0) == gj_phase1(
                    self.m(),
                    inv.m(),
                    n as int,
                    c as int,
                    0,
                ),
        {
            for r in 0..n
                invariant
                    n == self.size,
                    c < n,
                    self.wf(),
                    inv.wf(),
                    inv.spec_size() == n,
                    inv.names() is None,
                    self.size == old(self).size,
                    self.names() == old(self).names(),
                    gj_phase1(old(self).m(), identity_view(n as nat), n as int, 0, 0) == gj_phase1(
                        self.m(),
                        inv.m(),
                        n as int,
                        c as int,
                        r as int,
                    ),
            {
                if c != r {
                    let ghost m_prev = self.m();
                    let ghost inv_prev = inv.m();
                    if num_is_zero(&self.mat[c][c]) {
                        proof {
                            assert(zero_of(m_prev[c as int][c as int]));
                        }
                        return Err(SolveError::SingularMatrix);
                    }
                    proof {
                        assert(!zero_of(m_prev[c as int][c as int]));
                    }
                    let neg = num_neg(&self.mat[c][r]);
                    proof {
                        assert(neg@ == neg_of(m_prev[c as int][r as int]));
                    }
                    let scalar = num_div(&neg, &self.mat[c][c]);
                    proof {
                        assert(scalar@ == elim_scalar(m_prev, c as int, r as int));
                    }
                    let row = self.get_row(c);
                    let row_i = inv.get_row(c);
                    let ghost row_v = row@;
                    let ghost row_iv = row_i@;
                    let v = scale_vec(row, scalar.dup());
                    let vi = scale_vec(row_i, scalar.dup());
                    proof {
                        assert forall|t: int| 0 <= t < v@.len() implies (#[trigger] nums_view(
                            v@,
                        )[t]) == elim_vec(m_prev, c as int, scalar@)[t] by {
                            assert(nums_view(row_v)[t] == row_view(m_prev, c as int)[t]);
                            assert(row_view(m_prev, c as int)[t] == m_prev[t][c as int]);
                        }
                        assert(nums_view(v@) =~= elim_vec(m_prev, c as int, scalar@));
                        assert forall|t: int| 0 <= t < vi@.len() implies (#[trigger] nums_view(
                            vi@,
                        )[t]) == elim_vec(inv_prev, c as int, scalar@)[t] by {
                            assert(nums_view(row_iv)[t] == row_view(inv_prev, c as int)[t]);
                            assert(row_view(inv_prev, c as int)[t] == inv_prev[t][c as int]);
                        }
                        assert(nums_view(vi@) =~= elim_vec(inv_prev, c as int, scalar@));
                    }
                    self.add_to_row(r, &v);
                    inv.add_to_row(r, &vi);
                    proof {
                        assert(gj_phase1(m_prev, inv_prev, n as int, c as int, r as int)
                            == gj_phase1(self.m(), inv.m(), n as int, c as int, r + 1));
                    }
                } else {
                    proof {
                        assert(gj_phase1(self.m(), inv.m(), n as int, c as int, r as int)
                            == gj_phase1(self.m(), inv.m(), n as int, c as int, r + 1));
                    }
                }
            }
            proof {
                assert(gj_phase1(self.m(), inv.m(), n as int, c as int, n as int) == gj_phase1(
                    self.m(),
                    inv.m(),
                    n as int,
                    c + 1,
                    0,
                ));
            }
        }
        let ghost p1m = self.m();
        let ghost p1i = inv.m();
        proof {
            assert(gj_phase1(p1m, p1i, n as int, n as int, 0) == Some((p1m, p1i)));
        }
        for i in 0..n
            invariant
                n == self.size,
                self.wf(),
                inv.wf(),
                inv.spec_size() == n,
                inv.names() is None,
                self.size == old(self).size,
                self.names() == old(self).names(),
                gj_phase1(old(self).m(), identity_view(n as nat), n as int, 0, 0) == Some(
                    (p1m, p1i),
                ),
                gj_phase2(p1m, p1i, n as int, 0) == gj_phase2(self.m(), inv.m(), n as int, i as int),
        {
            let ghost m_prev = self.m();
            let ghost inv_prev = inv.m();
            if num_is_zero(&self.mat[i][i]) {
                proof {
                    assert(zero_of(m_prev[i as int][i as int]));
                }
                return Err(SolveError::SingularMatrix);
            }
            proof {
                assert(!zero_of(m_prev[i as int][i as int]));
            }
            let one = Num::new("1");
            let s = num_div(&one, &self.mat[i][i]);
            proof {
                assert(s@ == div_of("1"@, m_prev[i as int][i as int]));
            }
            self.scale_row(i, &s);
            inv.scale_row(i, &s);
            proof {
                assert(gj_phase2(m_prev, inv_prev, n as int, i as int) == gj_phase2(
                    self.m(),
                    inv.m(),
                    n as int,
                    i + 1,
                ));
            }
        }
        proof {
            assert(gj_phase2(self.m(), inv.m(), n as int, n as int) == Some(
                (self.m(), inv.m()),
            ));
            inv.lemma_wf();
        }
        let ghost inv_m = inv.m();
        let cols = inv.to_vec();
        proof {
            assert forall|k: int| 0 <= k < cols@.len() implies (#[trigger] cols@[k]@.len())
                == n by {
                assert(mat_view(cols@)[k] == nums_view(cols@[k]@));
                assert(inv_m[k].len() == n);
            }
            assert(cols@.len() == n);
        }
        self.mat = cols;
        Ok(())
    }
}

/// Multiplies a matrix and a column vector; fails if the vector's length is
/// not the matrix size.
pub fn mat_vec_mul(lhs: NxN, rhs: Vec<Num>) -> (r: Result<Vec<Num>, SolveError>)
    requires
        lhs.wf(),
    ensures
        match r {
            Ok(v) => lhs.spec_size() == rhs@.len() && v@.len() == rhs@.len() && forall|i: int|
                0 <= i < v@.len() ==> v@[i]@ == dot_of(row_view(lhs.m(), i), nums_view(rhs@)),
            Err(e) => lhs.spec_size() != rhs@.len() && e == SolveError::DimensionMismatch,
        },
{
    if lhs.size() != rhs.len() {
        return Err(SolveError::DimensionMismatch);
    }
    let n = rhs.len();
    let mut res: Vec<Num> = Vec::new();
    for i in 0..n
        invariant
            lhs.wf(),
            n == rhs@.len(),
            n == lhs.spec_size(),
            res@.len() == i,
            forall|k: int|
                0 <= k < i ==> (#[trigger] res@[k]@) == dot_of(
                    row_view(lhs.m(), k),
                    nums_view(rhs@),
                ),
    {
        let row = lhs.get_row(i);
        let d = vec_vec_dot(&row, &rhs);
        res.push(d);
    }
    Ok(res)
}

} // verus!
