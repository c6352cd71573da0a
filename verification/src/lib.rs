//! A small numerical equation-solving library: a dense square-matrix engine
//! with Gauss-Jordan inversion, finite-difference differentiation and
//! Jacobian construction, Newton-Raphson iteration for one unknown and for
//! square systems, and a gradient-ascent solver that needs no Jacobian.
//!
//! Scalars are carried as decimal texts ([`num::Num`]); the float arithmetic
//! behind them, and the evaluation of expression strings, are done by the
//! `meval` crate behind the small trusted boundary in [`num`] (and variable
//! names are read out of raw text by `regex`, behind one more trusted item
//! in [`gradient`]).  Everything built on top of those boundaries is
//! verified: every contract pins its result exactly, relative to the named
//! evaluator results.

pub mod gradient;
pub mod linalg;
pub mod mvcalc;
pub mod num;

use vstd::prelude::*;

verus! {

/// The ways a solver request can fail.
#[derive(Debug, Clone, Copy, PartialEq, Eq, Structural)]
pub enum SolveError {
    /// Gauss-Jordan elimination met a pivot that is exactly zero.
    SingularMatrix,
    /// The number of equations differs from the number of unknowns.
    UnderOrOverConstrained,
    /// The expression evaluator rejected an expression or an unbound name.
    EvaluationError,
    /// A vector's length does not fit the matrix it is used with.
    DimensionMismatch,
}

/// Whether some pair in `s` has the key `name`.
pub open spec fn has_key<V>(s: Seq<(String, V)>, name: Seq<char>) -> bool {
    exists|i: int| 0 <= i < s.len() && s[i].0@ == name
}

/// The position of the first pair in `s` whose key is `name` (meaningful
/// only where `has_key` holds).
pub open spec fn first_key_index<V>(s: Seq<(String, V)>, name: Seq<char>) -> int
    decreases s.len(),
{
    if s.len() == 0 {
        0
    } else if s[0].0@ == name {
        0
    } else {
        1 + first_key_index(s.drop_first(), name)
    }
}

proof fn lemma_first_key_index<V>(s: Seq<(String, V)>, name: Seq<char>, k: int)
    requires
        0 <= k < s.len(),
        s[k].0@ == name,
        forall|i: int| 0 <= i < k ==> s[i].0@ != name,
    ensures
        first_key_index(s, name) == k,
        has_key(s, name),
    decreases s.len(),
{
    if s[0].0@ != name {
        lemma_first_key_index(s.drop_first(), name, k - 1);
    }
}

/// Where some pair has the key, the first such position is in bounds and
/// holds the key.
pub proof fn lemma_first_key_index_bounds<V>(s: Seq<(String, V)>, name: Seq<char>)
    requires
        has_key(s, name),
    ensures
        0 <= first_key_index(s, name) < s.len(),
        s[first_key_index(s, name)].0@ == name,
    decreases s.len(),
{
    if s.len() > 0 && s[0].0@ != name {
        assert(has_key(s.drop_first(), name)) by {
            let i = choose|i: int| 0 <= i < s.len() && s[i].0@ == name;
            assert(s.drop_first()[i - 1].0@ == name);
        }
        lemma_first_key_index_bounds(s.drop_first(), name);
    }
}

/// The position of the first pair whose key is `name`, if any.
pub fn key_position<V>(hm: &Vec<(String, V)>, name: &String) -> (r: Option<usize>)
    ensures
        match r {
            Some(j) => has_key(hm@, name@) && j == first_key_index(hm@, name@) && j < hm@.len()
                && hm@[j as int].0@ == name@,
            None => !has_key(hm@, name@),
        },
{
    let n = hm.len();
    for j in 0..n
        invariant
            n == hm@.len(),
            forall|i: int| 0 <= i < j ==> hm@[i].0@ != name@,
    {
        if hm[j].0 == *name {
            proof {
                lemma_first_key_index(hm@, name@, j as int);
            }
            return Some(j);
        }
    }
    None
}

/// The value of the first pair whose key is `name`, if any.
pub fn lookup<'a, V>(hm: &'a Vec<(String, V)>, name: &String) -> (r: Option<&'a V>)
    ensures
        match r {
            Some(v) => has_key(hm@, name@) && *v == hm@[first_key_index(hm@, name@)].1,
            None => !has_key(hm@, name@),
        },
{
    match key_position(hm, name) {
        Some(j) => Some(&hm[j].1),
        None => None,
    }
}

/// Splits an ordered map, given as a list of key-value pairs, into the list
/// of its keys and the list of its values, kept in the same order.
pub fn split_hm<V>(hm: Vec<(String, V)>) -> (r: (Vec<String>, Vec<V>))
    ensures
        r.0@.len() == hm@.len(),
        r.1@.len() == hm@.len(),
        forall|i: int|
            0 <= i < hm@.len() ==> r.0@[i] == hm@[i].0 && r.1@[i] == hm@[i].1,
{
    let ghost orig = hm@;
    let mut rest = hm;
    let mut keys: Vec<String> = Vec::new();
    let mut vals: Vec<V> = Vec::new();
    while rest.len() > 0
        invariant
            keys@.len() == vals@.len(),
            keys@.len() + rest@.len() == orig.len(),
            forall|i: int|
                0 <= i < keys@.len() ==> keys@[i] == orig[i].0 && vals@[i] == orig[i].1,
            forall|i: int| 0 <= i < rest@.len() ==> rest@[i] == orig[keys@.len() + i],
        decreases rest@.len(),
    {
        let p = rest.remove(0);
        keys.push(p.0);
        vals.push(p.1);
    }
    (keys, vals)
}

/// Reverses the operation performed by [`split_hm`]: pairs the keys with the
/// values again, taking them from the back, so the resulting list holds the
/// pairs in reverse order.
pub fn stitch_hm<V>(keys: Vec<String>, vals: Vec<V>) -> (r: Vec<(String, V)>)
    requires
        keys@.len() == vals@.len(),
    ensures
        r@.len() == keys@.len(),
        forall|i: int|
            0 <= i < r@.len() ==> r@[i].0 == keys@[keys@.len() - 1 - i] && r@[i].1 == vals@[vals@.len()
                - 1 - i],
{
    let ghost ks = keys@;
    let ghost vs = vals@;
    let mut keys = keys;
    let mut vals = vals;
    let mut res: Vec<(String, V)> = Vec::new();
    while keys.len() > 0
        invariant
            ks.len() == vs.len(),
            keys@.len() == vals@.len(),
            keys@ =~= ks.take(keys@.len() as int),
            vals@ =~= vs.take(vals@.len() as int),
            res@.len() + keys@.len() == ks.len(),
            forall|i: int|
                0 <= i < res@.len() ==> res@[i].0 == ks[ks.len() - 1 - i] && res@[i].1 == vs[vs.len()
                    - 1 - i],
        decreases keys@.len(),
    {
        let k = keys.pop().unwrap();
        let v = vals.pop().unwrap();
        res.push((k, v));
    }
    res
}

/// Pairs each key of the ordered map with the position its value would take
/// in the lists that [`split_hm`] returns.
pub fn index_map<V>(hm: &Vec<(String, V)>) -> (r: Vec<(String, usize)>)
    ensures
        r@.len() == hm@.len(),
        forall|i: int| 0 <= i < hm@.len() ==> r@[i].0 == hm@[i].0 && r@[i].1 == i,
{
    let n = hm.len();
    let mut res: Vec<(String, usize)> = Vec::new();
    for j in 0..n
        invariant
            n == hm@.len(),
            res@.len() == j,
            forall|i: int| 0 <= i < j ==> res@[i].0 == hm@[i].0 && res@[i].1 == i,
    {
        res.push((hm[j].0.clone(), j));
    }
    res
}

} // verus!
