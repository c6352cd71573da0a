//! The gradient-ascent solver: a Jacobian-free alternative that climbs the
//! reciprocal of the system's total absolute error with an adaptive step
//! size and backtracking.
//!
//! The policies, fixed once for the whole module: the gradient is scaled
//! only where its magnitude exceeds the step budget; the budget starts at
//! one, shrinks tenfold on a failed step, and the run stops at a budget
//! under the fixed floor; out-of-domain steps clamp to the bound.  A run
//! also stops once the error is at or under the tolerance, once an accepted
//! step improves the error by less than the given minimum, once the
//! iteration budget is spent, or - best-effort, with the current
//! assignment - where an evaluation fails.

use vstd::prelude::*;
use vstd::string::StringSliceAdditionalSpecFns;

use crate::mvcalc::{
    bindings_of, binds_of_gv, d_dx, deriv_value, dup_guess, gfull, gv_binds_map, gview,
    lemma_guess_bindings, partial_func, split_lines, step_view, FnKind, GuessView, SystemFn,
    VarView, Variable,
};
use crate::num::{
    add_of, div_of, lt_of, mul_of, num_add, num_div, num_lt, num_mul, num_sqrt, num_sub, sqrt_of,
    sub_of, Num,
};
use crate::{first_key_index, has_key, key_position, lookup};

verus! {

/// The names found in an expression text: the maximal runs of letters and
/// underscores, in order of occurrence.
pub uninterp spec fn vars_of(s: Seq<char>) -> Seq<Seq<char>>;

/// Relies on regex::Regex::new and Regex::find_iter with the fixed, valid
/// pattern `(?i)[a-z_]+`: the non-overlapping maximal runs, left to right,
/// of ASCII letters, underscores, and the few characters that case-fold to
/// an ASCII letter.
#[verifier::external_body]
fn find_variables(s: &str) -> (r: Vec<String>)
    ensures
        r@.len() == vars_of(s@).len(),
        forall|i: int| 0 <= i < r@.len() ==> (#[trigger] r@[i]@) == vars_of(s@)[i],
{
    let re = regex::Regex::new("(?i)[a-z_]+").unwrap();
    re.find_iter(s).map(|m| m.as_str().to_string()).collect()
}

/// The names kept the first time they occur, in order.
pub open spec fn dedup(s: Seq<Seq<char>>) -> Seq<Seq<char>>
    decreases s.len(),
{
    if s.len() == 0 {
        Seq::empty()
    } else if s.drop_last().contains(s.last()) {
        dedup(s.drop_last())
    } else {
        dedup(s.drop_last()).push(s.last())
    }
}

/// A name occurs among the first occurrences exactly where it occurs at
/// all.
proof fn lemma_dedup_contains(s: Seq<Seq<char>>, x: Seq<char>)
    ensures
        dedup(s).contains(x) <==> s.contains(x),
    decreases s.len(),
{
    if s.len() > 0 {
        lemma_dedup_contains(s.drop_last(), x);
        let d = dedup(s.drop_last());
        if s.contains(x) {
            let i = choose|i: int| 0 <= i < s.len() && s[i] == x;
            if i < s.len() - 1 {
                assert(s.drop_last()[i] == x);
                assert(s.drop_last().contains(x));
                let j = choose|j: int| 0 <= j < d.len() && d[j] == x;
                if !s.drop_last().contains(s.last()) {
                    assert(d.push(s.last())[j] == x);
                }
            } else {
                assert(x == s.last());
                if !s.drop_last().contains(s.last()) {
                    assert(d.push(s.last())[d.len() as int] == x);
                }
            }
            assert(dedup(s).contains(x));
        }
        if dedup(s).contains(x) {
            if s.drop_last().contains(s.last()) {
                let i = choose|i: int| 0 <= i < s.drop_last().len() && s.drop_last()[i] == x;
                assert(s[i] == x);
            } else {
                let j = choose|j: int|
                    0 <= j < d.push(s.last()).len() && d.push(s.last())[j] == x;
                if j < d.len() {
                    assert(d[j] == x);
                    let i = choose|i: int| 0 <= i < s.drop_last().len() && s.drop_last()[i] == x;
                    assert(s[i] == x);
                } else {
                    assert(x == s.last());
                    assert(s[s.len() - 1] == x);
                }
            }
            assert(s.contains(x));
        }
    }
}

/// A guess vector has a name exactly where its name list has it.
proof fn lemma_has_key_names(g: Seq<(String, Variable)>, name: Seq<char>)
    ensures
        has_key(g, name) <==> crate::mvcalc::names_of(gfull(g)).contains(name),
{
    if has_key(g, name) {
        let i = choose|i: int| 0 <= i < g.len() && g[i].0@ == name;
        assert(crate::mvcalc::names_of(gfull(g))[i] == name);
    }
    if crate::mvcalc::names_of(gfull(g)).contains(name) {
        let i = choose|i: int|
            0 <= i < crate::mvcalc::names_of(gfull(g)).len() && crate::mvcalc::names_of(
                gfull(g),
            )[i] == name;
        assert(g[i].0@ == name);
    }
}

/// The domain that the bounds list assigns to a name, if any: the first
/// pair with that name, read as a closed interval.
pub open spec fn bound_domain(b: Seq<(String, (Num, Num))>, name: Seq<char>) -> Option<
    (Seq<char>, Seq<char>),
> {
    if has_key(b, name) {
        Some((b[first_key_index(b, name)].1.0@, b[first_key_index(b, name)].1.1@))
    } else {
        None
    }
}

/// The starting guess over the given names: every variable at one, with the
/// domain its name has in the bounds list.
pub open spec fn init_gv(names: Seq<Seq<char>>, b: Seq<(String, (Num, Num))>) -> GuessView {
    Seq::new(
        names.len(),
        |i: int| (names[i], VarView { value: "1"@, domain: bound_domain(b, names[i]) }),
    )
}

/// The sum of the squares of the components, left to right from zero.
pub open spec fn sumsq_of(s: Seq<Seq<char>>) -> Seq<char>
    decreases s.len(),
{
    if s.len() == 0 {
        "0"@
    } else {
        add_of(sumsq_of(s.drop_last()), mul_of(s.last(), s.last()))
    }
}

/// The magnitude of a vector of components: the square root of the sum of
/// their squares.
pub open spec fn mag_of(s: Seq<Seq<char>>) -> Seq<char> {
    sqrt_of(sumsq_of(s))
}

/// The component texts of a name-to-component list.
pub open spec fn comps_of(s: Seq<(String, Num)>) -> Seq<Seq<char>> {
    s.map_values(|p: (String, Num)| p.1@)
}

/// Returns the magnitude of a mathematical vector given as a list of named
/// components.
pub fn mag(vec: &Vec<(String, Num)>) -> (r: Num)
    ensures
        r@ == mag_of(comps_of(vec@)),
{
    let n = vec.len();
    let mut acc = Num::new("0");
    for i in 0..n
        invariant
            n == vec@.len(),
            acc@ == sumsq_of(comps_of(vec@).take(i as int)),
    {
        let sq = num_mul(&vec[i].1, &vec[i].1);
        acc = num_add(&acc, &sq);
        proof {
            assert(comps_of(vec@).take(i + 1).drop_last() =~= comps_of(vec@).take(i as int));
        }
    }
    proof {
        assert(comps_of(vec@).take(n as int) =~= comps_of(vec@));
    }
    num_sqrt(&acc)
}

/// Scales a given mathematical vector to the specified magnitude: every
/// component is multiplied by the target magnitude over the current one.
pub fn scale(vc: &mut Vec<(String, Num)>, scale: &Num)
    ensures
        final(vc)@.len() == old(vc)@.len(),
        forall|i: int|
            0 <= i < old(vc)@.len() ==> (#[trigger] final(vc)@[i]).0 == old(vc)@[i].0
                && final(vc)@[i].1@ == mul_of(
                old(vc)@[i].1@,
                div_of(scale@, mag_of(comps_of(old(vc)@))),
            ),
{
    let mgntd = mag(vc);
    let n = vc.len();
    let ghost orig = vc@;
    for i in 0..n
        invariant
            n == vc@.len(),
            orig == old(vc)@,
            mgntd@ == mag_of(comps_of(orig)),
            forall|k: int| i <= k < n ==> (#[trigger] vc@[k]) == orig[k],
            forall|k: int|
                0 <= k < i ==> (#[trigger] vc@[k]).0 == orig[k].0 && vc@[k].1@ == mul_of(
                    orig[k].1@,
                    div_of(scale@, mag_of(comps_of(orig))),
                ),
    {
        let q = num_div(scale, &mgntd);
        let nv = num_mul(&vc[i].1, &q);
        let name = vc[i].0.clone();
        vc.set(i, (name, nv));
    }
}

/// The differentiation step of the gradient path.
pub open spec fn grad_dx() -> Seq<char> {
    "0.0001"@
}

/// The differentiation step of the gradient path.
pub fn gradient_dx() -> (r: Num)
    ensures
        r@ == grad_dx(),
{
    Num::new("0.0001")
}

/// The floor under the step budget: a failed step at or under it stops the
/// run.
pub open spec fn step_floor() -> Seq<char> {
    "0.00001"@
}

/// The factor a failed step shrinks the budget by.
pub open spec fn decay_factor() -> Seq<char> {
    "0.1"@
}

/// The correctness of the system at a guess view.
pub open spec fn corr_value(lines: Seq<Seq<u8>>, gv: GuessView) -> Option<Seq<char>> {
    crate::mvcalc::fn_value(FnKind::Correctness, lines, gv_binds_map(gv))
}

/// Whether every component of the correctness gradient evaluates.
pub open spec fn grad_ok(lines: Seq<Seq<u8>>, gv: GuessView) -> bool {
    forall|i: int|
        0 <= i < gv.len() ==> (#[trigger] deriv_value(
            FnKind::Correctness,
            lines,
            binds_of_gv(gv),
            gv[i].0,
            gv[i].1.value,
            grad_dx(),
        )) is Some
}

/// The correctness gradient at a guess view: the partial derivative with
/// respect to each variable, in the guess's order.
pub open spec fn grad_of(lines: Seq<Seq<u8>>, gv: GuessView) -> Seq<Seq<char>> {
    Seq::new(
        gv.len(),
        |i: int|
            deriv_value(
                FnKind::Correctness,
                lines,
                binds_of_gv(gv),
                gv[i].0,
                gv[i].1.value,
                grad_dx(),
            ).unwrap(),
    )
}

/// The gradient scaled down to the step budget where its magnitude exceeds
/// it, kept as it is otherwise.
pub open spec fn scaled_grad(grad: Seq<Seq<char>>, step: Seq<char>) -> Seq<Seq<char>> {
    if lt_of(step, mag_of(grad)) {
        grad.map_values(|v: Seq<char>| mul_of(v, div_of(step, mag_of(grad))))
    } else {
        grad
    }
}

/// The guess view with every variable stepped by its gradient component,
/// under its domain policy.
pub open spec fn apply_grad(gv: GuessView, grad: Seq<Seq<char>>) -> GuessView {
    Seq::new(gv.len(), |i: int| (gv[i].0, step_view(gv[i].1, grad[i])))
}

/// The run of the gradient-ascent solver from iteration `count` on, ending
/// in the final guess view.  Each round evaluates the correctness, stops
/// once the error `1/correctness` is at or under the tolerance, forms the
/// gradient, caps it at the step budget, steps every variable, and keeps
/// the step only where the correctness did not fall; a kept step that
/// improves the error by less than `min_delta` stops the run, a failed step
/// shrinks the budget tenfold and stops at the floor, and the round counter
/// stops the run at the iteration budget.  A failed evaluation stops the
/// run with the assignment it was given.
pub open spec fn grad_run(
    lines: Seq<Seq<u8>>,
    gv: GuessView,
    step: Seq<char>,
    tol: Seq<char>,
    min_delta: Seq<char>,
    limit: int,
    count: int,
) -> GuessView
    decreases limit + 1 - count,
{
    match corr_value(lines, gv) {
        None => gv,
        Some(c) => {
            let e = div_of("1"@, c);
            if !lt_of(tol, e) {
                gv
            } else if !grad_ok(lines, gv) {
                gv
            } else {
                let grad = scaled_grad(grad_of(lines, gv), step);
                let gv2 = apply_grad(gv, grad);
                match corr_value(lines, gv2) {
                    None => gv2,
                    Some(c2) => if lt_of(c2, c) {
                        if lt_of(step_floor(), step) {
                            if count + 1 > limit {
                                gv
                            } else {
                                grad_run(
                                    lines,
                                    gv,
                                    mul_of(step, decay_factor()),
                                    tol,
                                    min_delta,
                                    limit,
                                    count + 1,
                                )
                            }
                        } else {
                            gv
                        }
                    } else {
                        let e2 = div_of("1"@, c2);
                        if lt_of(sub_of(e, e2), min_delta) {
                            gv2
                        } else if count + 1 > limit {
                            gv2
                        } else {
                            grad_run(lines, gv2, step, tol, min_delta, limit, count + 1)
                        }
                    },
                }
            }
        },
    }
}

/// The assignment a solve run returns: each variable's name paired with its
/// final value.
fn to_output(vars: &Vec<(String, Variable)>) -> (r: Vec<(String, Num)>)
    ensures
        r@.len() == vars@.len(),
        forall|i: int|
            0 <= i < vars@.len() ==> (#[trigger] r@[i]).0 == vars@[i].0 && r@[i].1@
                == vars@[i].1@.value,
{
    let n = vars.len();
    let mut r: Vec<(String, Num)> = Vec::new();
    for i in 0..n
        invariant
            n == vars@.len(),
            r@.len() == i,
            forall|k: int|
                0 <= k < i ==> (#[trigger] r@[k]).0 == vars@[k].0 && r@[k].1@ == vars@[k].1@.value,
    {
        r.push((vars[i].0.clone(), vars[i].1.read().dup()));
    }
    r
}

/// Solves a system of newline-separated equations given as a text,
/// best-effort, by gradient ascent on the correctness objective.  The
/// variables are the names found in the text, started at one and clamped to
/// the interval, if any, that `bounds` assigns to their name; the result
/// maps each variable to its final value and never reports failure.
pub fn solve(
    system: &str,
    bounds: Vec<(String, (Num, Num))>,
    iter_limit: i32,
    tolerance: &Num,
    min_delta: &Num,
) -> (r: Vec<(String, Num)>)
    ensures
        ({
            let gvf = grad_run(
                split_lines(system.spec_bytes()),
                init_gv(dedup(vars_of(system@)), bounds@),
                "1"@,
                tolerance@,
                min_delta@,
                iter_limit as int,
                0,
            );
            r@.len() == gvf.len() && forall|i: int|
                0 <= i < gvf.len() ==> (#[trigger] r@[i]).0@ == gvf[i].0 && r@[i].1@
                    == gvf[i].1.value
        }),
{
    let ghost lines = split_lines(system.spec_bytes());
    let ghost allnames = vars_of(system@);
    let names = find_variables(system);
    let mut vars: Vec<(String, Variable)> = Vec::new();
    let n = names.len();
    for i in 0..n
        invariant
            n == names@.len(),
            n == allnames.len(),
            allnames == vars_of(system@),
            forall|k: int| 0 <= k < n ==> (#[trigger] names@[k]@) == allnames[k],
            gfull(vars@) == init_gv(dedup(allnames.take(i as int)), bounds@),
    {
        let ghost pre = allnames.take(i as int);
        proof {
            assert(allnames.take(i + 1).drop_last() =~= pre);
            assert(allnames.take(i + 1).last() == allnames[i as int]);
            lemma_dedup_contains(pre, allnames[i as int]);
            lemma_has_key_names(vars@, allnames[i as int]);
            assert(crate::mvcalc::names_of(gfull(vars@)) =~= dedup(pre));
        }
        match key_position(&vars, &names[i]) {
            Some(_) => {
                proof {
                    assert(dedup(allnames.take(i + 1)) == dedup(pre));
                }
            },
            None => {
                let domain = match lookup(&bounds, &names[i]) {
                    Some(p) => Some((p.0.dup(), p.1.dup())),
                    None => None,
                };
                let one = Num::new("1");
                vars.push((names[i].clone(), Variable::new(one, domain)));
                proof {
                    assert(dedup(allnames.take(i + 1)) == dedup(pre).push(allnames[i as int]));
                    assert(gfull(vars@) =~= init_gv(dedup(allnames.take(i + 1)), bounds@));
                }
            },
        }
    }
    proof {
        assert(allnames.take(n as int) =~= allnames);
    }
    let corr_fn = SystemFn::correctness(system);
    let dxg = gradient_dx();
    let mut step_size = Num::new("1");
    let mut count: i64 = 0;
    let ghost gv0 = gfull(vars@);
    loop
        invariant
            corr_fn.wf(),
            corr_fn.spec_kind() == FnKind::Correctness,
            corr_fn.spec_lines() == lines,
            dxg@ == grad_dx(),
            lines == split_lines(system.spec_bytes()),
            gv0 == init_gv(dedup(vars_of(system@)), bounds@),
            0 <= count,
            count as int <= 2147483648,
            grad_run(lines, gv0, "1"@, tolerance@, min_delta@, iter_limit as int, 0) == grad_run(
                lines,
                gfull(vars@),
                step_size@,
                tolerance@,
                min_delta@,
                iter_limit as int,
                count as int,
            ),
        decreases iter_limit as int + 1 - count as int,
    {
        let ghost gv_cur = gfull(vars@);
        let ghost step_cur = step_size@;
        let ghost count_cur = count as int;
        proof {
            lemma_guess_bindings(vars@);
            assert(bindings_of(vars@) == gv_binds_map(gv_cur));
        }
        let c = match corr_fn.eval_at(&vars) {
            Some(c) => c,
            None => {
                return to_output(&vars);
            },
        };
        let one = Num::new("1");
        let e = num_div(&one, &c);
        if !num_lt(tolerance, &e) {
            return to_output(&vars);
        }
        let mut grad: Vec<(String, Num)> = Vec::new();
        let m = vars.len();
        for i in 0..m
            invariant
                m == vars@.len(),
                gv_cur == gfull(vars@),
                lines == split_lines(system.spec_bytes()),
                corr_fn.wf(),
                corr_fn.spec_kind() == FnKind::Correctness,
                corr_fn.spec_lines() == lines,
                dxg@ == grad_dx(),
                grad@.len() == i,
                forall|k: int|
                    0 <= k < i ==> (#[trigger] deriv_value(
                        FnKind::Correctness,
                        lines,
                        binds_of_gv(gv_cur),
                        gv_cur[k].0,
                        gv_cur[k].1.value,
                        grad_dx(),
                    )) is Some,
                forall|k: int|
                    0 <= k < i ==> (#[trigger] grad@[k]).0 == vars@[k].0 && grad@[k].1@
                        == deriv_value(
                        FnKind::Correctness,
                        lines,
                        binds_of_gv(gv_cur),
                        gv_cur[k].0,
                        gv_cur[k].1.value,
                        grad_dx(),
                    ).unwrap(),
                gv0 == init_gv(dedup(vars_of(system@)), bounds@),
                grad_run(lines, gv0, "1"@, tolerance@, min_delta@, iter_limit as int, 0)
                    == grad_run(
                    lines,
                    gv_cur,
                    step_cur,
                    tolerance@,
                    min_delta@,
                    iter_limit as int,
                    count_cur,
                ),
                corr_value(lines, gv_cur) == Some(c@),
                lt_of(tolerance@, div_of("1"@, c@)),
        {
            let pf = partial_func(&corr_fn, &vars, vars[i].0.as_str());
            proof {
                lemma_guess_bindings(vars@);
                assert(gview(vars@) == binds_of_gv(gv_cur));
                assert(gv_cur[i as int].0 == vars@[i as int].0@);
                assert(gv_cur[i as int].1 == vars@[i as int].1@);
            }
            let d = match d_dx(&pf, vars[i].1.read(), &dxg) {
                Some(d) => d,
                None => {
                    proof {
                        assert(!grad_ok(lines, gv_cur));
                    }
                    return to_output(&vars);
                },
            };
            grad.push((vars[i].0.clone(), d));
        }
        proof {
            assert(grad_ok(lines, gv_cur));
            assert(comps_of(grad@) =~= grad_of(lines, gv_cur));
        }
        let mg = mag(&grad);
        if num_lt(&step_size, &mg) {
            scale(&mut grad, &step_size);
        }
        proof {
            assert(comps_of(grad@) =~= scaled_grad(grad_of(lines, gv_cur), step_cur));
        }
        let record = dup_guess(&vars);
        proof {
            assert(gfull(record@) =~= gv_cur);
        }
        let m2 = vars.len();
        for i in 0..m2
            invariant
                m2 == vars@.len(),
                m2 == gv_cur.len(),
                grad@.len() == m2,
                comps_of(grad@) == scaled_grad(grad_of(lines, gv_cur), step_cur),
                forall|k: int| i <= k < m2 ==> (#[trigger] gfull(vars@)[k]) == gv_cur[k],
                forall|k: int|
                    0 <= k < i ==> (#[trigger] gfull(vars@)[k]) == (
                        gv_cur[k].0,
                        step_view(gv_cur[k].1, comps_of(grad@)[k]),
                    ),
        {
            let d = grad[i].1.dup();
            let name = vars[i].0.clone();
            let mut v = vars[i].1.dup();
            v.step(&d);
            let ghost vprev = vars@;
            vars.set(i, (name, v));
            proof {
                assert(comps_of(grad@)[i as int] == grad@[i as int].1@);
                assert(gfull(vprev)[i as int] == gv_cur[i as int]);
                assert(v@ == step_view(gv_cur[i as int].1, comps_of(grad@)[i as int]));
                assert forall|k: int| 0 <= k < m2 implies #[trigger] gfull(vars@)[k] == (if k
                    == i {
                    (gv_cur[i as int].0, step_view(gv_cur[i as int].1, comps_of(grad@)[i as int]))
                } else {
                    gfull(vprev)[k]
                }) by {
                    assert(vars@[k] == if k == i {
                        vprev.update(i as int, (name, v))[k]
                    } else {
                        vprev[k]
                    });
                }
            }
        }
        proof {
            assert(gfull(vars@) =~= apply_grad(gv_cur, scaled_grad(grad_of(lines, gv_cur), step_cur)));
            lemma_guess_bindings(vars@);
            assert(bindings_of(vars@) == gv_binds_map(gfull(vars@)));
        }
        let ghost gv2 = gfull(vars@);
        let c2 = match corr_fn.eval_at(&vars) {
            Some(c2) => c2,
            None => {
                return to_output(&vars);
            },
        };
        if num_lt(&c2, &c) {
            vars = record;
            proof {
                assert(gfull(vars@) == gv_cur);
            }
            let floor = Num::new("0.00001");
            if num_lt(&floor, &step_size) {
                let decay = Num::new("0.1");
                step_size = num_mul(&step_size, &decay);
                count = count + 1;
                if count > iter_limit as i64 {
                    return to_output(&vars);
                }
            } else {
                return to_output(&vars);
            }
        } else {
            let one2 = Num::new("1");
            let e2 = num_div(&one2, &c2);
            let imp = num_sub(&e, &e2);
            if num_lt(&imp, min_delta) {
                return to_output(&vars);
            }
            count = count + 1;
            if count > iter_limit as i64 {
                return to_output(&vars);
            }
        }
        proof {
            assert(grad_run(
                lines,
                gv_cur,
                step_cur,
                tolerance@,
                min_delta@,
                iter_limit as int,
                count_cur,
            ) == grad_run(
                lines,
                gfull(vars@),
                step_size@,
                tolerance@,
                min_delta@,
                iter_limit as int,
                count as int,
            ));
        }
    }
}

} // verus!
