//! Bounded scalars, finite-difference derivatives, Jacobians, and the
//! Newton-Raphson solvers for one unknown and for square systems.

use vstd::prelude::*;
use vstd::slice::{slice_subrange, slice_to_vec};
use vstd::string::StringSliceAdditionalSpecFns;

use crate::num::{
    abs_of, add_of, ctx_new, ctx_var, ctx_vars, div_of, eval_in_ctx, eval_of, lt_of, no_bindings,
    num_abs, num_add, num_div, num_is_zero, num_lt, num_sub, sub_of, zero_of, Num,
};
use crate::linalg::{
    dot_of, gj_inverse, mat_vec_mul, nums_view, row_view, strs_view, NxN,
};
use crate::num::{neg_of, num_neg};
use crate::{first_key_index, has_key, lookup, split_hm, stitch_hm, SolveError};

verus! {

/// The position of the first occurrence of byte `b` in `e` at or after `i`.
pub open spec fn find_byte_at(e: Seq<u8>, b: u8, i: int) -> Option<int>
    decreases e.len() - i,
{
    if i < 0 || i >= e.len() {
        None
    } else if e[i] == b {
        Some(i)
    } else {
        find_byte_at(e, b, i + 1)
    }
}

/// The position of the first occurrence of byte `b` in `e` at or after
/// `from`, if any.
pub fn find_byte(e: &[u8], b: u8, from: usize) -> (r: Option<usize>)
    ensures
        match r {
            Some(j) => find_byte_at(e@, b, from as int) == Some(j as int) && from <= j < e@.len(),
            None => find_byte_at(e@, b, from as int) is None,
        },
{
    let n = e.len();
    let mut j = from;
    while j < n
        invariant
            from <= j,
            n == e@.len(),
            find_byte_at(e@, b, from as int) == find_byte_at(e@, b, j as int),
        decreases n - j,
    {
        if e[j] == b {
            return Some(j);
        }
        j = j + 1;
    }
    None
}

/// The residual expression of an equation: where the bytes hold an `=`, the
/// text `(lhs)-(rhs)` built from the parts around its first occurrence, so
/// that the equation `lhs = rhs` is evaluated as `lhs - rhs`; an expression
/// without `=` is its own residual.
pub open spec fn residual_form(e: Seq<u8>) -> Seq<u8> {
    match find_byte_at(e, 61u8, 0) {
        None => e,
        Some(i) => seq![40u8] + e.take(i) + seq![41u8, 45u8, 40u8] + e.skip(i + 1) + seq![41u8],
    }
}

/// Builds the residual expression of an equation given as bytes.
pub fn residual_expr(e: &[u8]) -> (r: Vec<u8>)
    ensures
        r@ == residual_form(e@),
{
    let n = e.len();
    match find_byte(e, 61, 0) {
        None => slice_to_vec(e),
        Some(i) => {
            let mut out: Vec<u8> = Vec::new();
            out.push(40);
            push_range(&mut out, e, 0, i);
            out.push(41);
            out.push(45);
            out.push(40);
            push_range(&mut out, e, i + 1, n);
            out.push(41);
            proof {
                assert(e@.subrange(0, i as int) =~= e@.take(i as int));
                assert(e@.subrange(i + 1, n as int) =~= e@.skip(i + 1));
                assert(out@ =~= residual_form(e@));
            }
            out
        },
    }
}

/// Appends the bytes of `e` between `from` and `to` to `out`.
fn push_range(out: &mut Vec<u8>, e: &[u8], from: usize, to: usize)
    requires
        from <= to <= e@.len(),
    ensures
        final(out)@ == old(out)@ + e@.subrange(from as int, to as int),
{
    let mut j = from;
    while j < to
        invariant
            from <= j <= to <= e@.len(),
            out@ =~= old(out)@ + e@.subrange(from as int, j as int),
        decreases to - j,
    {
        out.push(e[j]);
        j = j + 1;
        proof {
            assert(out@ =~= old(out)@ + e@.subrange(from as int, j as int));
        }
    }
    proof {
        assert(out@ =~= old(out)@ + e@.subrange(from as int, to as int));
    }
}

/// The lines of a byte text: the pieces between newline bytes.  A text
/// without a newline is a single line; a trailing newline yields a final
/// empty line.
pub open spec fn split_lines(e: Seq<u8>) -> Seq<Seq<u8>>
    decreases e.len(),
{
    match find_byte_at(e, 10u8, 0) {
        None => seq![e],
        Some(i) => if 0 <= i < e.len() {
            seq![e.take(i)] + split_lines(e.skip(i + 1))
        } else {
            seq![e]
        },
    }
}

/// Splits a byte text at its newline bytes.
pub fn split_lines_exec(e: &[u8]) -> (r: Vec<Vec<u8>>)
    ensures
        lines_view(r@) =~= split_lines(e@),
    decreases e@.len(),
{
    let n = e.len();
    match find_byte(e, 10, 0) {
        None => {
            let mut out: Vec<Vec<u8>> = Vec::new();
            out.push(slice_to_vec(e));
            out
        },
        Some(i) => {
            let head = slice_subrange(e, 0, i);
            let tail = slice_subrange(e, i + 1, n);
            let mut rest = split_lines_exec(tail);
            let ghost rest0 = rest@;
            let mut out: Vec<Vec<u8>> = Vec::new();
            out.push(slice_to_vec(head));
            out.append(&mut rest);
            proof {
                assert(e@.subrange(0, i as int) =~= e@.take(i as int));
                assert(e@.subrange(i + 1, n as int) =~= e@.skip(i + 1));
                assert(lines_view(out@) =~= seq![e@.take(i as int)] + lines_view(rest0));
            }
            out
        },
    }
}

/// What a guess vector looks like to the evaluator: each pair reduced to
/// the name's text and the value's text.
pub open spec fn gview(g: Seq<(String, Variable)>) -> Seq<(Seq<char>, Seq<char>)> {
    g.map_values(|p: (String, Variable)| (p.0@, p.1@.value))
}

/// The bindings map extended with one binding per pair, in order, a later
/// binding of a name shadowing an earlier one.
pub open spec fn extend_bindings(
    m: Map<Seq<char>, Seq<char>>,
    s: Seq<(Seq<char>, Seq<char>)>,
) -> Map<Seq<char>, Seq<char>>
    decreases s.len(),
{
    if s.len() == 0 {
        m
    } else {
        extend_bindings(m, s.drop_last()).insert(s.last().0, s.last().1)
    }
}

/// The bindings that a guess vector establishes: each variable name bound
/// to its current value.
pub open spec fn bindings_of(g: Seq<(String, Variable)>) -> Map<Seq<char>, Seq<char>> {
    extend_bindings(no_bindings(), gview(g))
}

/// Binds every variable of the guess vector in the context, in order.
pub fn bind_all(c: &mut meval::Context<'static>, g: &Vec<(String, Variable)>)
    ensures
        ctx_vars(*final(c)) == extend_bindings(ctx_vars(*old(c)), gview(g@)),
{
    let ghost m0 = ctx_vars(*c);
    let n = g.len();
    for i in 0..n
        invariant
            n == g@.len(),
            ctx_vars(*c) == extend_bindings(m0, gview(g@).take(i as int)),
            m0 == ctx_vars(*old(c)),
    {
        ctx_var(c, g[i].0.as_str(), g[i].1.read());
        proof {
            assert(gview(g@).take(i + 1).drop_last() =~= gview(g@).take(i as int));
            assert(gview(g@).take(i + 1).last() == gview(g@)[i as int]);
        }
    }
    proof {
        assert(gview(g@).take(n as int) =~= gview(g@));
    }
}

/// The three shapes of scalar function the solvers evaluate and
/// differentiate.
#[derive(Clone, Copy, PartialEq, Eq, Structural)]
pub enum FnKind {
    /// The residual of a single equation.
    Residual,
    /// The absolute value of that residual.
    AbsResidual,
    /// The sum of the absolute residuals of a list of equations.
    ErrorSum,
    /// The reciprocal of that sum: the ascent objective.
    Correctness,
}

/// The views of a list of byte strings.
pub open spec fn lines_view(s: Seq<Vec<u8>>) -> Seq<Seq<u8>> {
    s.map_values(|v: Vec<u8>| v@)
}

/// The sum of the absolute residuals of the lines under bindings `m`,
/// summed left to right starting from zero; `None` where any line fails to
/// evaluate.
pub open spec fn error_sum_value(lines: Seq<Seq<u8>>, m: Map<Seq<char>, Seq<char>>) -> Option<
    Seq<char>,
>
    decreases lines.len(),
{
    if lines.len() == 0 {
        Some("0"@)
    } else {
        match (error_sum_value(lines.drop_last(), m), eval_of(residual_form(lines.last()), m)) {
            (Some(acc), Some(v)) => Some(add_of(acc, abs_of(v))),
            _ => None,
        }
    }
}

/// The value of a function of the given kind over the given equation lines,
/// under bindings `m`.
pub open spec fn fn_value(kind: FnKind, lines: Seq<Seq<u8>>, m: Map<Seq<char>, Seq<char>>) -> Option<
    Seq<char>,
> {
    match kind {
        FnKind::Residual => eval_of(residual_form(lines[0]), m),
        FnKind::AbsResidual => match eval_of(residual_form(lines[0]), m) {
            Some(v) => Some(abs_of(v)),
            None => None,
        },
        FnKind::ErrorSum => error_sum_value(lines, m),
        FnKind::Correctness => match error_sum_value(lines, m) {
            Some(e) => Some(div_of("1"@, e)),
            None => None,
        },
    }
}

/// A scalar function of a variable assignment, built from equation text: a
/// single residual, a system's total absolute error, or its reciprocal.
pub struct SystemFn {
    lines: Vec<Vec<u8>>,
    kind: FnKind,
}

impl SystemFn {
    /// The equation lines, as byte strings.
    pub closed spec fn spec_lines(self) -> Seq<Seq<u8>> {
        lines_view(self.lines@)
    }

    /// Which of the three shapes this function has.
    pub closed spec fn spec_kind(self) -> FnKind {
        self.kind
    }

    /// A single-residual function holds exactly one line.
    pub open spec fn wf(self) -> bool {
        self.spec_kind() == FnKind::Residual || self.spec_kind() == FnKind::AbsResidual
            ==> self.spec_lines().len() == 1
    }

    /// The residual of the single equation `expr`.
    pub fn residual(expr: &str) -> (r: SystemFn)
        ensures
            r.wf(),
            r.spec_kind() == FnKind::Residual,
            r.spec_lines() =~= seq![expr.spec_bytes()],
    {
        let mut lines: Vec<Vec<u8>> = Vec::new();
        lines.push(slice_to_vec(expr.as_bytes()));
        SystemFn { lines, kind: FnKind::Residual }
    }

    /// The absolute value of the residual of the single equation `expr`.
    pub fn abs_residual(expr: &str) -> (r: SystemFn)
        ensures
            r.wf(),
            r.spec_kind() == FnKind::AbsResidual,
            r.spec_lines() =~= seq![expr.spec_bytes()],
    {
        let mut lines: Vec<Vec<u8>> = Vec::new();
        lines.push(slice_to_vec(expr.as_bytes()));
        SystemFn { lines, kind: FnKind::AbsResidual }
    }

    /// The total absolute error of the system given as a list of equation
    /// strings.
    pub fn error_sum_lines(system: &Vec<&str>) -> (r: SystemFn)
        ensures
            r.wf(),
            r.spec_kind() == FnKind::ErrorSum,
            r.spec_lines() =~= sys_bytes(system@),
    {
        let n = system.len();
        let mut lines: Vec<Vec<u8>> = Vec::new();
        for i in 0..n
            invariant
                n == system@.len(),
                lines@.len() == i,
                forall|k: int| 0 <= k < i ==> (#[trigger] lines@[k]@) == system@[k].spec_bytes(),
        {
            lines.push(slice_to_vec(system[i].as_bytes()));
        }
        SystemFn { lines, kind: FnKind::ErrorSum }
    }

    /// The total absolute error of the system given as newline-separated
    /// equations.
    pub fn error_sum(system: &str) -> (r: SystemFn)
        ensures
            r.wf(),
            r.spec_kind() == FnKind::ErrorSum,
            r.spec_lines() == split_lines(system.spec_bytes()),
    {
        SystemFn { lines: split_lines_exec(system.as_bytes()), kind: FnKind::ErrorSum }
    }

    /// The correctness of the system given as newline-separated equations:
    /// the reciprocal of its total absolute error.
    pub fn correctness(system: &str) -> (r: SystemFn)
        ensures
            r.wf(),
            r.spec_kind() == FnKind::Correctness,
            r.spec_lines() == split_lines(system.spec_bytes()),
    {
        SystemFn { lines: split_lines_exec(system.as_bytes()), kind: FnKind::Correctness }
    }

    /// An independent copy.
    pub fn dup(&self) -> (r: SystemFn)
        ensures
            r.spec_lines() == self.spec_lines(),
            r.spec_kind() == self.spec_kind(),
            r.wf() == self.wf(),
    {
        let n = self.lines.len();
        let mut lines: Vec<Vec<u8>> = Vec::new();
        for i in 0..n
            invariant
                n == self.lines@.len(),
                lines@.len() == i,
                forall|k: int| 0 <= k < i ==> (#[trigger] lines@[k]@) == self.lines@[k]@,
        {
            lines.push(slice_to_vec(self.lines[i].as_slice()));
        }
        let r = SystemFn { lines, kind: self.kind };
        proof {
            assert(r.spec_lines() =~= self.spec_lines());
        }
        r
    }

    /// Evaluates the function under the bindings of a prepared context.
    pub fn eval_in(&self, c: &meval::Context<'static>) -> (r: Option<Num>)
        requires
            self.wf(),
        ensures
            r is Some <==> fn_value(self.spec_kind(), self.spec_lines(), ctx_vars(*c)) is Some,
            r is Some ==> r.unwrap()@ == fn_value(
                self.spec_kind(),
                self.spec_lines(),
                ctx_vars(*c),
            ).unwrap(),
    {
        match self.kind {
            FnKind::Residual => {
                let expr = residual_expr(self.lines[0].as_slice());
                eval_in_ctx(expr.as_slice(), c)
            },
            FnKind::AbsResidual => {
                let expr = residual_expr(self.lines[0].as_slice());
                match eval_in_ctx(expr.as_slice(), c) {
                    Some(v) => Some(num_abs(&v)),
                    None => None,
                }
            },
            FnKind::ErrorSum => self.error_sum_in(c),
            FnKind::Correctness => {
                match self.error_sum_in(c) {
                    Some(e) => {
                        let one = Num::new("1");
                        Some(num_div(&one, &e))
                    },
                    None => None,
                }
            },
        }
    }

    /// Evaluates the function at the given guess vector.
    pub fn eval_at(&self, guess: &Vec<(String, Variable)>) -> (r: Option<Num>)
        requires
            self.wf(),
        ensures
            r is Some <==> fn_value(
                self.spec_kind(),
                self.spec_lines(),
                bindings_of(guess@),
            ) is Some,
            r is Some ==> r.unwrap()@ == fn_value(
                self.spec_kind(),
                self.spec_lines(),
                bindings_of(guess@),
            ).unwrap(),
    {
        let mut c = ctx_new();
        bind_all(&mut c, guess);
        self.eval_in(&c)
    }

    /// Evaluates the total absolute error under a prepared context.
    fn error_sum_in(&self, c: &meval::Context<'static>) -> (r: Option<Num>)
        ensures
            r is Some <==> error_sum_value(self.spec_lines(), ctx_vars(*c)) is Some,
            r is Some ==> r.unwrap()@ == error_sum_value(self.spec_lines(), ctx_vars(*c)).unwrap(),
    {
        let n = self.lines.len();
        let mut acc = Num::new("0");
        for i in 0..n
            invariant
                n == self.lines@.len(),
                error_sum_value(self.spec_lines().take(i as int), ctx_vars(*c)) == Some(acc@),
        {
            let expr = residual_expr(self.lines[i].as_slice());
            match eval_in_ctx(expr.as_slice(), c) {
                Some(v) => {
                    let a = crate::num::num_abs(&v);
                    acc = num_add(&acc, &a);
                    proof {
                        assert(self.spec_lines().take(i + 1).drop_last() =~= self.spec_lines().take(
                            i as int,
                        ));
                        assert(self.spec_lines().take(i + 1).last() == self.spec_lines()[i as int]);
                    }
                },
                None => {
                    proof {
                        lemma_error_sum_none(self.spec_lines(), ctx_vars(*c), i as int);
                    }
                    return None;
                },
            }
        }
        proof {
            assert(self.spec_lines().take(n as int) =~= self.spec_lines());
        }
        Some(acc)
    }
}

/// Where one line fails to evaluate, the whole error sum is `None`.
proof fn lemma_error_sum_none(lines: Seq<Seq<u8>>, m: Map<Seq<char>, Seq<char>>, i: int)
    requires
        0 <= i < lines.len(),
        eval_of(residual_form(lines[i]), m) is None,
    ensures
        error_sum_value(lines, m) is None,
    decreases lines.len(),
{
    if lines.len() > 0 {
        if i < lines.len() - 1 {
            lemma_error_sum_none(lines.drop_last(), m, i);
        }
    }
}

/// The value of an equation's residual at a guess: the residual expression
/// evaluated under the guess's bindings.
pub open spec fn equation_value(e: Seq<u8>, g: Seq<(String, Variable)>) -> Option<Seq<char>> {
    eval_of(residual_form(e), bindings_of(g))
}

/// Evaluates an equation's residual at a guess.
pub fn eval_equation(e: &[u8], guess: &Vec<(String, Variable)>) -> (r: Option<Num>)
    ensures
        r is Some <==> equation_value(e@, guess@) is Some,
        r is Some ==> r.unwrap()@ == equation_value(e@, guess@).unwrap(),
{
    let expr = residual_expr(e);
    let mut c = ctx_new();
    bind_all(&mut c, guess);
    eval_in_ctx(expr.as_slice(), &c)
}

/// The mathematical value of a [`Variable`]: its decimal text and its
/// optional closed domain, both as texts.
pub ghost struct VarView {
    pub value: Seq<char>,
    pub domain: Option<(Seq<char>, Seq<char>)>,
}

/// A scalar with an optional closed interval that every mutation keeps the
/// value on.
#[derive(Debug)]
pub struct Variable {
    value: Num,
    domain: Option<(Num, Num)>,
}

impl View for Variable {
    type V = VarView;

    closed spec fn view(&self) -> VarView {
        VarView {
            value: self.value@,
            domain: match self.domain {
                Some((lo, hi)) => Some((lo@, hi@)),
                None => None,
            },
        }
    }
}

/// Where a candidate value lands under the domain policy: a candidate
/// strictly inside the interval is kept; one at or beyond a bound is clamped
/// to that bound; without a domain every candidate is kept.
pub open spec fn clamped(candidate: Seq<char>, domain: Option<(Seq<char>, Seq<char>)>) -> Seq<
    char,
> {
    match domain {
        Some((lo, hi)) => if lt_of(lo, candidate) && lt_of(candidate, hi) {
            candidate
        } else if !lt_of(lo, candidate) {
            lo
        } else {
            hi
        },
        None => candidate,
    }
}

impl Variable {
    /// Wraps a value and an optional domain as a variable.
    pub fn new(value: Num, domain: Option<(Num, Num)>) -> (r: Variable)
        ensures
            r@.value == value@,
            r@.domain == domain_view(domain),
    {
        Variable { value, domain }
    }

    /// Moves the value to `qty`, under the domain policy.
    pub fn change(&mut self, qty: &Num)
        ensures
            final(self)@.value == clamped(qty@, old(self)@.domain),
            final(self)@.domain == old(self)@.domain,
    {
        match &self.domain {
            Some((lo, hi)) => {
                if num_lt(lo, qty) && num_lt(qty, hi) {
                    self.value = qty.dup();
                } else if !num_lt(lo, qty) {
                    self.value = lo.dup();
                } else {
                    self.value = hi.dup();
                }
            },
            None => {
                self.value = qty.dup();
            },
        }
    }

    /// Adds `qty` to the value, under the domain policy.
    pub fn step(&mut self, qty: &Num)
        ensures
            final(self)@.value == clamped(add_of(old(self)@.value, qty@), old(self)@.domain),
            final(self)@.domain == old(self)@.domain,
    {
        let candidate = num_add(&self.value, qty);
        self.change(&candidate);
    }

    /// The current value.
    pub fn read(&self) -> (r: &Num)
        ensures
            r@ == self@.value,
    {
        &self.value
    }

    /// A copy of the variable whose value is `new_val`, taken as it is: the
    /// domain is kept for later mutations but the new value is not clamped,
    /// so that a derivative can probe points just outside the interval.
    pub fn edit_val(&self, new_val: &Num) -> (r: Variable)
        ensures
            r@.value == new_val@,
            r@.domain == self@.domain,
    {
        Variable { value: new_val.dup(), domain: dup_domain(&self.domain) }
    }

    /// An independent copy.
    pub fn dup(&self) -> (r: Variable)
        ensures
            r@ == self@,
    {
        Variable { value: self.value.dup(), domain: dup_domain(&self.domain) }
    }
}

/// A result from a solver that can have converged, run out of its iteration
/// budget with a best-effort answer, or failed to compute a usable step.
pub enum SolverResult<T> {
    /// The residual came under the tolerance.
    Converged(T),
    /// The iteration budget was spent; the best guess so far is carried.
    Exhausted(T),
    /// No usable step could be computed.
    Failed,
}

impl<T> SolverResult<T> {
    /// Returns the contained value, consuming the `self` value in the
    /// process; a failed result carries none, so it is left out here.
    pub fn unwrap(self) -> (r: T)
        requires
            !(self is Failed),
        ensures
            match self {
                SolverResult::Converged(t) => r == t,
                SolverResult::Exhausted(t) => r == t,
                SolverResult::Failed => false,
            },
    {
        match self {
            SolverResult::Converged(t) => t,
            SolverResult::Exhausted(t) => t,
            SolverResult::Failed => vstd::pervasive::unreached(),
        }
    }
}

/// An independent copy of a guess vector: the same names, values and
/// domains.
pub fn dup_guess(g: &Vec<(String, Variable)>) -> (r: Vec<(String, Variable)>)
    ensures
        r@.len() == g@.len(),
        forall|i: int|
            0 <= i < g@.len() ==> (#[trigger] r@[i]).0 == g@[i].0 && r@[i].1@ == g@[i].1@,
        gview(r@) == gview(g@),
{
    let n = g.len();
    let mut r: Vec<(String, Variable)> = Vec::new();
    for i in 0..n
        invariant
            n == g@.len(),
            r@.len() == i,
            forall|k: int|
                0 <= k < i ==> (#[trigger] r@[k]).0 == g@[k].0 && r@[k].1@ == g@[k].1@,
    {
        r.push((g[i].0.clone(), g[i].1.dup()));
    }
    proof {
        assert(gview(r@) =~= gview(g@));
    }
    r
}

/// A scalar function with one designated variable: calling it overwrites
/// that variable's binding with the argument and evaluates the function at
/// the stored assignment.
pub struct PartialFn {
    f: SystemFn,
    vars: Vec<(String, Variable)>,
    target: String,
}

/// The value of a partial function at `x`: the function of the given kind
/// and lines, under the stored bindings with the target bound to `x`.
pub open spec fn partial_value(
    kind: FnKind,
    lines: Seq<Seq<u8>>,
    vars: Seq<(Seq<char>, Seq<char>)>,
    target: Seq<char>,
    x: Seq<char>,
) -> Option<Seq<char>> {
    fn_value(kind, lines, extend_bindings(no_bindings(), vars).insert(target, x))
}

impl PartialFn {
    /// Which of the three shapes the underlying function has.
    pub closed spec fn spec_kind(self) -> FnKind {
        self.f.spec_kind()
    }

    /// The equation lines of the underlying function.
    pub closed spec fn spec_lines(self) -> Seq<Seq<u8>> {
        self.f.spec_lines()
    }

    /// The stored variable assignment.
    pub closed spec fn spec_vars(self) -> Seq<(Seq<char>, Seq<char>)> {
        gview(self.vars@)
    }

    /// The designated variable's name.
    pub closed spec fn spec_target(self) -> Seq<char> {
        self.target@
    }

    /// The underlying function is well-formed.
    pub closed spec fn wf(self) -> bool {
        self.f.wf()
    }

    /// Evaluates the function with the designated variable bound to `x`.
    pub fn call(&self, x: &Num) -> (r: Option<Num>)
        requires
            self.wf(),
        ensures
            r is Some <==> partial_value(
                self.spec_kind(),
                self.spec_lines(),
                self.spec_vars(),
                self.spec_target(),
                x@,
            ) is Some,
            r is Some ==> r.unwrap()@ == partial_value(
                self.spec_kind(),
                self.spec_lines(),
                self.spec_vars(),
                self.spec_target(),
                x@,
            ).unwrap(),
    {
        let mut c = ctx_new();
        bind_all(&mut c, &self.vars);
        ctx_var(&mut c, self.target.as_str(), x);
        self.f.eval_in(&c)
    }
}

/// Returns a function of one variable: the given function evaluated at the
/// given assignment, with the `target` variable overwritten by the
/// function's argument.
pub fn partial_func(func: &SystemFn, guess: &Vec<(String, Variable)>, target: &str) -> (r:
    PartialFn)
    ensures
        r.wf() == func.wf(),
        r.spec_kind() == func.spec_kind(),
        r.spec_lines() == func.spec_lines(),
        r.spec_vars() == gview(guess@),
        r.spec_target() == target@,
{
    PartialFn { f: func.dup(), vars: dup_guess(guess), target: target.to_owned() }
}

/// The forward-difference derivative of a partial function at `x` with
/// step `dx`: `(f(x + dx) - f(x)) / dx`; `None` where either evaluation
/// fails.
pub open spec fn deriv_value(
    kind: FnKind,
    lines: Seq<Seq<u8>>,
    vars: Seq<(Seq<char>, Seq<char>)>,
    target: Seq<char>,
    x: Seq<char>,
    dx: Seq<char>,
) -> Option<Seq<char>> {
    match (
        partial_value(kind, lines, vars, target, add_of(x, dx)),
        partial_value(kind, lines, vars, target, x),
    ) {
        (Some(hi), Some(lo)) => Some(div_of(sub_of(hi, lo), dx)),
        _ => None,
    }
}

/// Returns the forward-difference derivative of a function at a point,
/// with the differentiation step `dx`.
pub fn d_dx(func: &PartialFn, x: &Num, dx: &Num) -> (r: Option<Num>)
    requires
        func.wf(),
    ensures
        r is Some <==> deriv_value(
            func.spec_kind(),
            func.spec_lines(),
            func.spec_vars(),
            func.spec_target(),
            x@,
            dx@,
        ) is Some,
        r is Some ==> r.unwrap()@ == deriv_value(
            func.spec_kind(),
            func.spec_lines(),
            func.spec_vars(),
            func.spec_target(),
            x@,
            dx@,
        ).unwrap(),
{
    let xh = num_add(x, dx);
    let hi = func.call(&xh);
    let lo = func.call(x);
    match (hi, lo) {
        (Some(h), Some(l)) => {
            let d = num_sub(&h, &l);
            Some(num_div(&d, dx))
        },
        _ => None,
    }
}

/// The standard differentiation step of the Newton-Raphson path.
pub open spec fn newton_dx() -> Seq<char> {
    "0.0000001"@
}

/// The standard differentiation step of the Newton-Raphson path.
pub fn default_dx() -> (r: Num)
    ensures
        r@ == newton_dx(),
{
    Num::new("0.0000001")
}

/// The smallest positive normal 64-bit float, substituted for an exactly
/// zero derivative so that the Newton update divides by a tiny magnitude
/// instead of by zero.
pub open spec fn min_positive_text() -> Seq<char> {
    "2.2250738585072014e-308"@
}

/// The zero-derivative sentinel.
pub fn zero_derivative_sentinel() -> (r: Num)
    ensures
        r@ == min_positive_text(),
{
    Num::new("2.2250738585072014e-308")
}

/// The full view of a guess vector: each pair reduced to the name's text
/// and the variable's mathematical value.
pub type GuessView = Seq<(Seq<char>, VarView)>;

/// The full view of a guess vector.
pub open spec fn gfull(g: Seq<(String, Variable)>) -> GuessView {
    g.map_values(|p: (String, Variable)| (p.0@, p.1@))
}

/// The name-to-value-text pairs of a guess view.
pub open spec fn binds_of_gv(gv: GuessView) -> Seq<(Seq<char>, Seq<char>)> {
    gv.map_values(|q: (Seq<char>, VarView)| (q.0, q.1.value))
}

/// Whether some pair of the guess view has the given name.
pub open spec fn gv_has(gv: GuessView, name: Seq<char>) -> bool {
    exists|i: int| 0 <= i < gv.len() && gv[i].0 == name
}

/// The position of the first pair of the guess view with the given name
/// (meaningful only where `gv_has` holds).
pub open spec fn gv_index(gv: GuessView, name: Seq<char>) -> int
    decreases gv.len(),
{
    if gv.len() == 0 {
        0
    } else if gv[0].0 == name {
        0
    } else {
        1 + gv_index(gv.drop_first(), name)
    }
}

/// The full view of a guess vector determines its bindings, its keys, and
/// where each key first occurs.
pub proof fn lemma_gv_of_guess(g: Seq<(String, Variable)>, name: Seq<char>)
    ensures
        binds_of_gv(gfull(g)) == gview(g),
        gv_has(gfull(g), name) <==> has_key(g, name),
        has_key(g, name) ==> gv_index(gfull(g), name) == first_key_index(g, name),
    decreases g.len(),
{
    assert(binds_of_gv(gfull(g)) =~= gview(g));
    if has_key(g, name) {
        let i = choose|i: int| 0 <= i < g.len() && g[i].0@ == name;
        assert(gfull(g)[i].0 == name);
        assert(gv_has(gfull(g), name));
    }
    if gv_has(gfull(g), name) {
        let i = choose|i: int| 0 <= i < gfull(g).len() && gfull(g)[i].0 == name;
        assert(g[i].0@ == name);
        assert(has_key(g, name));
    }
    if g.len() > 0 {
        lemma_gv_of_guess(g.drop_first(), name);
        assert(gfull(g).drop_first() =~= gfull(g.drop_first()));
        if g[0].0@ != name && has_key(g, name) {
            let i = choose|i: int| 0 <= i < g.len() && g[i].0@ == name;
            assert(g.drop_first()[i - 1].0@ == name);
            assert(has_key(g.drop_first(), name));
        }
        assert(gfull(g)[0].0 == g[0].0@);
    }
}

/// The partial derivative of an equation's residual with respect to the
/// `target` variable, at the first value the guess holds for it.
pub open spec fn partial_deriv(e: Seq<u8>, gv: GuessView, target: Seq<char>, dx: Seq<char>) -> Option<
    Seq<char>,
> {
    deriv_value(
        FnKind::Residual,
        seq![e],
        binds_of_gv(gv),
        target,
        gv[gv_index(gv, target)].1.value,
        dx,
    )
}

/// Returns the partial derivative of a function w.r.t. the `target`
/// variable, with the differentiation step `dx`.
pub fn partial_d_dx(expr: &str, guess: &Vec<(String, Variable)>, target: &String, dx: &Num) -> (r:
    Option<Num>)
    requires
        has_key(guess@, target@),
    ensures
        r is Some <==> partial_deriv(expr.spec_bytes(), gfull(guess@), target@, dx@) is Some,
        r is Some ==> r.unwrap()@ == partial_deriv(
            expr.spec_bytes(),
            gfull(guess@),
            target@,
            dx@,
        ).unwrap(),
{
    let f = SystemFn::residual(expr);
    let pf = partial_func(&f, guess, target.as_str());
    let xv: Num = match lookup(guess, target) {
        Some(v) => v.read().dup(),
        None => {
            proof {
                assert(false);
            }
            Num::new("0")
        },
    };
    proof {
        lemma_gv_of_guess(guess@, target@);
        crate::lemma_first_key_index_bounds(guess@, target@);
        assert(gfull(guess@)[first_key_index(guess@, target@)].1 == guess@[first_key_index(
            guess@,
            target@,
        )].1@);
    }
    d_dx(&pf, &xv, dx)
}

/// The equation lines of a system of equation strings, as byte strings.
pub open spec fn sys_bytes(s: Seq<&str>) -> Seq<Seq<u8>> {
    s.map_values(|x: &str| x.spec_bytes())
}

/// The names of a guess view, in order.
pub open spec fn names_of(gv: GuessView) -> Seq<Seq<char>> {
    gv.map_values(|q: (Seq<char>, VarView)| q.0)
}

/// One entry of the Jacobian: the partial derivative of equation `row`'s
/// residual with respect to the variable of column `c`.
pub open spec fn jac_entry(
    system: Seq<Seq<u8>>,
    gv: GuessView,
    c: int,
    row: int,
    dx: Seq<char>,
) -> Option<Seq<char>> {
    partial_deriv(system[row], gv, gv[c].0, dx)
}

/// Returns the Jacobian matrix of a given system of equations at the vector
/// given by `guess`, with the differentiation step `dx`.  The matrix's
/// columns stand for the guess's variables in the guess's own order, and the
/// matrix carries those names.  Fails with `UnderOrOverConstrained` where
/// the system is not square, and with `EvaluationError` where some entry's
/// evaluation fails.
pub fn jacobian(system: &Vec<&str>, guess: &Vec<(String, Variable)>, dx: &Num) -> (r: Result<
    NxN,
    SolveError,
>)
    ensures
        match r {
            Ok(m) => {
                &&& system@.len() == guess@.len()
                &&& m.wf()
                &&& m.spec_size() == system@.len()
                &&& m.names() == Some(names_of(gfull(guess@)))
                &&& forall|c: int, row: int|
                    0 <= c < guess@.len() && 0 <= row < system@.len() ==> Some(
                        #[trigger] m.m()[c][row],
                    ) == jac_entry(sys_bytes(system@), gfull(guess@), c, row, dx@)
            },
            Err(e) => if system@.len() != guess@.len() {
                e == SolveError::UnderOrOverConstrained
            } else {
                e == SolveError::EvaluationError && exists|c: int, row: int|
                    0 <= c < guess@.len() && 0 <= row < system@.len() && (#[trigger] jac_entry(
                        sys_bytes(system@),
                        gfull(guess@),
                        c,
                        row,
                        dx@,
                    )) is None
            },
        },
{
    if system.len() != guess.len() {
        return Err(SolveError::UnderOrOverConstrained);
    }
    let size = system.len();
    let pair = split_hm(dup_guess(guess));
    let keys = pair.0;
    let mut mat: Vec<Vec<Num>> = Vec::new();
    for c in 0..size
        invariant
            size == system@.len(),
            size == guess@.len(),
            keys@.len() == size,
            forall|k: int| 0 <= k < size ==> (#[trigger] keys@[k])@ == guess@[k].0@,
            mat@.len() == c,
            forall|k: int| 0 <= k < c ==> (#[trigger] mat@[k]@.len()) == size,
            forall|k: int, row: int|
                0 <= k < c && 0 <= row < size ==> Some(#[trigger] mat@[k]@[row]@) == jac_entry(
                    sys_bytes(system@),
                    gfull(guess@),
                    k,
                    row,
                    dx@,
                ),
    {
        let mut col: Vec<Num> = Vec::new();
        for row in 0..size
            invariant
                size == system@.len(),
                size == guess@.len(),
                keys@.len() == size,
                c < size,
                forall|k: int| 0 <= k < size ==> (#[trigger] keys@[k])@ == guess@[k].0@,
                col@.len() == row,
                forall|t: int|
                    0 <= t < row ==> Some(#[trigger] col@[t]@) == jac_entry(
                        sys_bytes(system@),
                        gfull(guess@),
                        c as int,
                        t,
                        dx@,
                    ),
        {
            proof {
                assert(guess@[c as int].0@ == keys@[c as int]@);
                assert(has_key(guess@, keys@[c as int]@));
                assert(gfull(guess@)[c as int].0 == keys@[c as int]@);
                assert(sys_bytes(system@)[row as int] == system@[row as int].spec_bytes());
            }
            match partial_d_dx(system[row], guess, &keys[c], dx) {
                Some(v) => col.push(v),
                None => {
                    proof {
                        assert(jac_entry(
                            sys_bytes(system@),
                            gfull(guess@),
                            c as int,
                            row as int,
                            dx@,
                        ) is None);
                    }
                    return Err(SolveError::EvaluationError);
                },
            }
        }
        mat.push(col);
    }
    let mut vnames: Vec<&str> = Vec::new();
    for c in 0..size
        invariant
            size == keys@.len(),
            vnames@.len() == c,
            forall|k: int| 0 <= k < c ==> (#[trigger] vnames@[k])@ == keys@[k]@,
            forall|k: int| 0 <= k < size ==> (#[trigger] keys@[k])@ == guess@[k].0@,
            size == system@.len(),
            size == guess@.len(),
            mat@.len() == size,
            forall|k: int| 0 <= k < size ==> (#[trigger] mat@[k]@.len()) == size,
            forall|k: int, row: int|
                0 <= k < size && 0 <= row < size ==> Some(#[trigger] mat@[k]@[row]@) == jac_entry(
                    sys_bytes(system@),
                    gfull(guess@),
                    k,
                    row,
                    dx@,
                ),
    {
        vnames.push(keys[c].as_str());
    }
    let m = NxN::from_cols(size, mat, Some(vnames));
    proof {
        assert(vnames@.map_values(|x: &str| x@) =~= names_of(gfull(guess@)));
        assert forall|c: int, row: int| 0 <= c < guess@.len() && 0 <= row < system@.len() implies
            Some(#[trigger] m.m()[c][row]) == jac_entry(
            sys_bytes(system@),
            gfull(guess@),
            c,
            row,
            dx@,
        ) by {
            assert(m.m()[c] == nums_view(mat@[c]@));
            assert(nums_view(mat@[c]@)[row] == mat@[c]@[row]@);
        }
    }
    Ok(m)
}

/// The bindings map of a guess view.
pub open spec fn gv_binds_map(gv: GuessView) -> Map<Seq<char>, Seq<char>> {
    extend_bindings(no_bindings(), binds_of_gv(gv))
}

/// A guess vector's bindings are those of its full view.
pub proof fn lemma_guess_bindings(g: Seq<(String, Variable)>)
    ensures
        binds_of_gv(gfull(g)) == gview(g),
        bindings_of(g) == gv_binds_map(gfull(g)),
{
    lemma_gv_of_guess(g, ""@);
}

/// The residual values of the system's equations under bindings `m`, in
/// order; `None` where any evaluation fails.
pub open spec fn residuals_of(system: Seq<Seq<u8>>, m: Map<Seq<char>, Seq<char>>) -> Option<
    Seq<Seq<char>>,
>
    decreases system.len(),
{
    if system.len() == 0 {
        Some(seq![])
    } else {
        match (residuals_of(system.drop_last(), m), eval_of(residual_form(system.last()), m)) {
            (Some(s), Some(v)) => Some(s.push(v)),
            _ => None,
        }
    }
}

/// Where one equation fails to evaluate, the whole residual vector is
/// `None`.
proof fn lemma_residuals_none(system: Seq<Seq<u8>>, m: Map<Seq<char>, Seq<char>>, i: int)
    requires
        0 <= i < system.len(),
        eval_of(residual_form(system[i]), m) is None,
    ensures
        residuals_of(system, m) is None,
    decreases system.len(),
{
    if system.len() > 0 {
        if i < system.len() - 1 {
            lemma_residuals_none(system.drop_last(), m, i);
        }
    }
}

/// The value a variable's view takes after stepping it by `q` under its
/// domain policy.
pub open spec fn step_view(v: VarView, q: Seq<char>) -> VarView {
    VarView { value: clamped(add_of(v.value, q), v.domain), domain: v.domain }
}

/// Whether some pair of a name-to-text list has the given name.
pub open spec fn pr_has(s: Seq<(Seq<char>, Seq<char>)>, name: Seq<char>) -> bool {
    exists|i: int| 0 <= i < s.len() && s[i].0 == name
}

/// The position of the first pair of a name-to-text list with the given
/// name (meaningful only where `pr_has` holds).
pub open spec fn pr_index(s: Seq<(Seq<char>, Seq<char>)>, name: Seq<char>) -> int
    decreases s.len(),
{
    if s.len() == 0 {
        0
    } else if s[0].0 == name {
        0
    } else {
        1 + pr_index(s.drop_first(), name)
    }
}

/// A list of name-value pairs determines where a name first occurs.
proof fn lemma_pairs_lookup(s: Seq<(String, Num)>, vs: Seq<(Seq<char>, Seq<char>)>, name: Seq<char>)
    requires
        vs.len() == s.len(),
        forall|i: int| 0 <= i < s.len() ==> (#[trigger] vs[i]) == (s[i].0@, s[i].1@),
    ensures
        pr_has(vs, name) <==> has_key(s, name),
        has_key(s, name) ==> pr_index(vs, name) == first_key_index(s, name),
    decreases s.len(),
{
    if has_key(s, name) {
        let i = choose|i: int| 0 <= i < s.len() && s[i].0@ == name;
        assert(vs[i].0 == name);
        assert(pr_has(vs, name));
    }
    if pr_has(vs, name) {
        let i = choose|i: int| 0 <= i < vs.len() && vs[i].0 == name;
        assert(s[i].0@ == name);
        assert(has_key(s, name));
    }
    if s.len() > 0 {
        assert(vs[0] == (s[0].0@, s[0].1@));
        lemma_pairs_lookup(s.drop_first(), vs.drop_first(), name);
        if s[0].0@ != name && has_key(s, name) {
            let i = choose|i: int| 0 <= i < s.len() && s[i].0@ == name;
            assert(s.drop_first()[i - 1].0@ == name);
            assert(has_key(s.drop_first(), name));
        }
    }
}

/// What one Newton iteration makes of a guess.
pub ghost enum StepModel {
    /// A Jacobian entry or a residual failed to evaluate.
    EvalFailed,
    /// The Jacobian could not be inverted.
    Singular,
    /// The guess after the step: each variable stepped by the negated delta
    /// that the inverted Jacobian and the residual vector assign to its
    /// name.
    Stepped(GuessView),
}

/// The Jacobian of the system at the guess view, as a column-major matrix
/// (meaningful only where every entry evaluates).
pub open spec fn jac_mat(system: Seq<Seq<u8>>, gv: GuessView, dx: Seq<char>) -> Seq<
    Seq<Seq<char>>,
> {
    Seq::new(gv.len(), |c: int| Seq::new(gv.len(), |row: int| jac_entry(system, gv, c, row, dx).unwrap()))
}

/// Whether every Jacobian entry evaluates.
pub open spec fn jac_ok(system: Seq<Seq<u8>>, gv: GuessView, dx: Seq<char>) -> bool {
    forall|c: int, row: int|
        0 <= c < gv.len() && 0 <= row < gv.len() ==> (#[trigger] jac_entry(
            system,
            gv,
            c,
            row,
            dx,
        )) is Some
}

/// One iteration of Newton's method on a square system: build the Jacobian,
/// invert it, evaluate the residual vector, multiply, re-associate the
/// deltas to the variable names through the reversed key list, and step
/// every variable by its negated delta.
pub open spec fn newton_next(system: Seq<Seq<u8>>, gv: GuessView, dx: Seq<char>) -> StepModel {
    let n = gv.len() as int;
    if !jac_ok(system, gv, dx) {
        StepModel::EvalFailed
    } else {
        match gj_inverse(jac_mat(system, gv, dx), n) {
            None => StepModel::Singular,
            Some(jinv) => match residuals_of(system, gv_binds_map(gv)) {
                None => StepModel::EvalFailed,
                Some(fx) => {
                    let delta = Seq::new(n as nat, |i: int| dot_of(row_view(jinv, i), fx));
                    let pairs = Seq::new(
                        n as nat,
                        |i: int| (gv[n - 1 - i].0, delta[n - 1 - i]),
                    );
                    StepModel::Stepped(
                        Seq::new(
                            n as nat,
                            |i: int|
                                (
                                    gv[i].0,
                                    step_view(gv[i].1, neg_of(pairs[pr_index(pairs, gv[i].0)].1)),
                                ),
                        ),
                    )
                },
            },
        }
    }
}

/// An independent copy of a list of names.
fn dup_strings(v: &Vec<String>) -> (r: Vec<String>)
    ensures
        r@.len() == v@.len(),
        forall|i: int| 0 <= i < v@.len() ==> (#[trigger] r@[i]) == v@[i],
{
    let n = v.len();
    let mut r: Vec<String> = Vec::new();
    for i in 0..n
        invariant
            n == v@.len(),
            r@.len() == i,
            forall|k: int| 0 <= k < i ==> (#[trigger] r@[k]) == v@[k],
    {
        r.push(v[i].clone());
    }
    r
}

/// Performs one iteration of Newton's method for a system of equations,
/// returning the next guess vector.
fn newton_iteration(system: &Vec<&str>, guess: Vec<(String, Variable)>, dx: &Num) -> (r: Result<
    Vec<(String, Variable)>,
    SolveError,
>)
    ensures
        match r {
            Ok(g2) => {
                &&& system@.len() == guess@.len()
                &&& g2@.len() == guess@.len()
                &&& forall|i: int| 0 <= i < g2@.len() ==> (#[trigger] g2@[i]).0 == guess@[i].0
                &&& newton_next(sys_bytes(system@), gfull(guess@), dx@) == StepModel::Stepped(
                    gfull(g2@),
                )
            },
            Err(e) => if system@.len() != guess@.len() {
                e == SolveError::UnderOrOverConstrained
            } else {
                (e == SolveError::EvaluationError && newton_next(
                    sys_bytes(system@),
                    gfull(guess@),
                    dx@,
                ) == StepModel::EvalFailed) || (e == SolveError::SingularMatrix && newton_next(
                    sys_bytes(system@),
                    gfull(guess@),
                    dx@,
                ) == StepModel::Singular)
            },
        },
{
    let ghost sys = sys_bytes(system@);
    let ghost gv = gfull(guess@);
    let ghost n = guess@.len() as int;
    let mut j = match jacobian(system, &guess, dx) {
        Ok(j) => j,
        Err(e) => {
            return Err(e);
        },
    };
    proof {
        j.lemma_wf();
        assert forall|c: int| 0 <= c < n implies (#[trigger] j.m()[c]) =~= jac_mat(
            sys,
            gv,
            dx@,
        )[c] by {
            assert(forall|row: int|
                0 <= row < n ==> Some(#[trigger] j.m()[c][row]) == jac_entry(sys, gv, c, row, dx@));
        }
        assert(j.m() =~= jac_mat(sys, gv, dx@));
        assert forall|c: int, row: int| 0 <= c < gv.len() && 0 <= row < gv.len() implies (
        #[trigger] jac_entry(sys, gv, c, row, dx@)) is Some by {
            assert(Some(j.m()[c][row]) == jac_entry(sys, gv, c, row, dx@));
        }
        assert(jac_ok(sys, gv, dx@));
    }
    let ghost jm = j.m();
    match j.invert() {
        Err(_) => {
            return Err(SolveError::SingularMatrix);
        },
        Ok(_) => {},
    }
    let ghost jinv = j.m();
    let n_exec = system.len();
    let mut fx: Vec<Num> = Vec::new();
    for row in 0..n_exec
        invariant
            n_exec == system@.len(),
            n_exec == guess@.len(),
            sys == sys_bytes(system@),
            gv == gfull(guess@),
            n == guess@.len() as int,
            fx@.len() == row,
            residuals_of(sys.take(row as int), gv_binds_map(gv)) == Some(nums_view(fx@)),
            j.wf(),
            j.spec_size() == n,
            j.names() == Some(names_of(gv)),
            jinv == j.m(),
            jac_ok(sys, gv, dx@),
            gj_inverse(jac_mat(sys, gv, dx@), n) == Some(jinv),
    {
        proof {
            lemma_guess_bindings(guess@);
            assert(bindings_of(guess@) == gv_binds_map(gv));
            assert(sys[row as int] == system@[row as int].spec_bytes());
        }
        match eval_equation(system[row].as_bytes(), &guess) {
            Some(v) => {
                fx.push(v);
                proof {
                    assert(sys.take(row + 1).drop_last() =~= sys.take(row as int));
                    assert(sys.take(row + 1).last() == sys[row as int]);
                    assert(nums_view(fx@).drop_last() =~= nums_view(fx@.drop_last()));
                    assert(nums_view(fx@) =~= nums_view(fx@.drop_last()).push(fx@.last()@));
                }
            },
            None => {
                proof {
                    lemma_residuals_none(sys, gv_binds_map(gv), row as int);
                }
                return Err(SolveError::EvaluationError);
            },
        }
    }
    proof {
        assert(sys.take(n) =~= sys);
    }
    let keys2 = match j.vars() {
        Some(v) => dup_strings(v),
        None => {
            proof {
                assert(false);
            }
            Vec::new()
        },
    };
    proof {
        assert(strs_view(keys2@) == names_of(gv));
    }
    let delta = match mat_vec_mul(j, fx) {
        Ok(d) => d,
        Err(_) => {
            proof {
                assert(false);
            }
            return Err(SolveError::DimensionMismatch);
        },
    };
    let x_n = stitch_hm(keys2, delta);
    let ghost fxv = residuals_of(sys, gv_binds_map(gv)).unwrap();
    let ghost delta_s = Seq::new(n as nat, |t: int| dot_of(row_view(jinv, t), fxv));
    let ghost pairs = Seq::new(n as nat, |t: int| (gv[n - 1 - t].0, delta_s[n - 1 - t]));
    proof {
        assert forall|t: int| 0 <= t < n implies (#[trigger] x_n@[t].0@, x_n@[t].1@) == pairs[t] by {
            assert(x_n@[t].0 == keys2@[n - 1 - t]);
            assert(keys2@[n - 1 - t]@ == strs_view(keys2@)[n - 1 - t]);
            assert(names_of(gv)[n - 1 - t] == gv[n - 1 - t].0);
            assert(x_n@[t].1 == delta@[n - 1 - t]);
            assert(delta@[n - 1 - t]@ == dot_of(row_view(jinv, n - 1 - t), nums_view(fx@)));
            assert(nums_view(fx@) == fxv);
        }
    }
    let mut g2 = guess;
    let n2 = g2.len();
    for i in 0..n2
        invariant
            n2 == n,
            g2@.len() == n2,
            gv == gfull(guess@),
            n == guess@.len() as int,
            x_n@.len() == n,
            delta_s == Seq::new(n as nat, |t: int| dot_of(row_view(jinv, t), fxv)),
            pairs == Seq::new(n as nat, |t: int| (gv[n - 1 - t].0, delta_s[n - 1 - t])),
            forall|t: int| 0 <= t < n ==> ((#[trigger] x_n@[t].0@), x_n@[t].1@) == pairs[t],
            forall|k: int| i <= k < n2 ==> (#[trigger] g2@[k]) == guess@[k],
            forall|k: int| 0 <= k < n2 ==> (#[trigger] g2@[k]).0 == guess@[k].0,
            forall|k: int|
                0 <= k < i ==> (#[trigger] g2@[k]).1@ == step_view(
                    gv[k].1,
                    neg_of(pairs[pr_index(pairs, gv[k].0)].1),
                ),
    {
        proof {
            assert(0 <= n - 1 - i < n);
            assert(pairs[n - 1 - i] == (gv[n - 1 - (n - 1 - i)].0, delta_s[n - 1 - (n - 1 - i)]));
            assert(pairs[n - 1 - i].0 == gv[i as int].0);
            assert(x_n@[n - 1 - i].0@ == pairs[n - 1 - i].0);
            assert(gv[i as int].0 == guess@[i as int].0@);
            assert(has_key(x_n@, g2@[i as int].0@)) by {
                assert(x_n@[n - 1 - i].0@ == g2@[i as int].0@);
            }
            assert forall|t: int| 0 <= t < x_n@.len() implies (#[trigger] pairs[t]) == (
            x_n@[t].0@,
            x_n@[t].1@,
            ) by {}
            lemma_pairs_lookup(x_n@, pairs, g2@[i as int].0@);
            crate::lemma_first_key_index_bounds(x_n@, g2@[i as int].0@);
        }
        let d = match lookup(&x_n, &g2[i].0) {
            Some(d) => d,
            None => {
                proof {
                    assert(false);
                }
                return Err(SolveError::EvaluationError);
            },
        };
        let nd = num_neg(d);
        let name = g2[i].0.clone();
        let mut var = g2[i].1.dup();
        var.step(&nd);
        proof {
            let name = gv[i as int].0;
            let fki = first_key_index(x_n@, g2@[i as int].0@);
            assert(pr_index(pairs, name) == fki);
            assert(pairs[fki] == (x_n@[fki].0@, x_n@[fki].1@));
            assert(d@ == pairs[pr_index(pairs, name)].1);
            assert(var@ == step_view(gv[i as int].1, neg_of(pairs[pr_index(pairs, name)].1)));
        }
        g2.set(i, (name, var));
    }
    proof {
        assert(gfull(g2@) =~= Seq::new(
            n as nat,
            |i: int| (gv[i].0, step_view(gv[i].1, neg_of(pairs[pr_index(pairs, gv[i].0)].1))),
        ));
        assert(newton_next(sys, gv, dx@) == StepModel::Stepped(gfull(g2@)));
    }
    Ok(g2)
}

/// What the single-unknown Newton-Raphson solver can make of its input.
pub ghost enum NrModel {
    /// The absolute residual came under the tolerance.
    Converged(VarView),
    /// The iteration budget was spent.
    Exhausted(VarView),
    /// An evaluation failed.
    Failed,
}

/// The run of the single-unknown Newton-Raphson solver from iteration
/// `count` on: until the absolute residual comes strictly under the
/// tolerance (so a residual at the tolerance, or a NaN, keeps iterating),
/// step the unknown by the negated residual over its derivative, an
/// exactly zero derivative replaced by the smallest positive magnitude;
/// stop with the current value once the budget is spent.
pub open spec fn nr_run(
    eq: Seq<u8>,
    ps: Seq<(Seq<char>, Seq<char>)>,
    name: Seq<char>,
    x: VarView,
    tol: Seq<char>,
    max: int,
    count: int,
) -> NrModel
    decreases max + 1 - count,
{
    match partial_value(FnKind::AbsResidual, seq![eq], ps, name, x.value) {
        None => NrModel::Failed,
        Some(fv) => if lt_of(fv, tol) {
            NrModel::Converged(x)
        } else {
            match deriv_value(FnKind::AbsResidual, seq![eq], ps, name, x.value, newton_dx()) {
                None => NrModel::Failed,
                Some(roc) => {
                    let roc2 = if zero_of(roc) {
                        min_positive_text()
                    } else {
                        roc
                    };
                    let x2 = step_view(x, div_of(neg_of(fv), roc2));
                    if count + 1 > max {
                        NrModel::Exhausted(x2)
                    } else {
                        nr_run(eq, ps, name, x2, tol, max, count + 1)
                    }
                },
            }
        },
    }
}

/// The bindings of an optional list of fixed parameters.
pub open spec fn params_view(params: Option<Vec<(String, Variable)>>) -> Seq<
    (Seq<char>, Seq<char>),
> {
    match params {
        Some(p) => gview(p@),
        None => Seq::empty(),
    }
}

/// Solves a single equation for a single unknown value by Newton-Raphson
/// iteration, under the optional fixed parameter bindings of `params`.
pub fn newton_raphson<'a>(
    equation: &str,
    guess: (&'a str, Variable),
    tolerance: &Num,
    max_iterations: i32,
    params: Option<Vec<(String, Variable)>>,
) -> (r: SolverResult<(&'a str, Variable)>)
    ensures
        match r {
            SolverResult::Converged(p) => p.0@ == guess.0@ && nr_run(
                equation.spec_bytes(),
                params_view(params),
                guess.0@,
                guess.1@,
                tolerance@,
                max_iterations as int,
                0,
            ) == NrModel::Converged(p.1@),
            SolverResult::Exhausted(p) => p.0@ == guess.0@ && nr_run(
                equation.spec_bytes(),
                params_view(params),
                guess.0@,
                guess.1@,
                tolerance@,
                max_iterations as int,
                0,
            ) == NrModel::Exhausted(p.1@),
            SolverResult::Failed => nr_run(
                equation.spec_bytes(),
                params_view(params),
                guess.0@,
                guess.1@,
                tolerance@,
                max_iterations as int,
                0,
            ) == NrModel::Failed,
        },
{
    let ghost eq = equation.spec_bytes();
    let ghost ps = params_view(params);
    let ghost name = guess.0@;
    let ghost x0 = guess.1@;
    let ghost tol = tolerance@;
    let ghost max = max_iterations as int;
    let pvec: Vec<(String, Variable)> = match params {
        Some(p) => p,
        None => Vec::new(),
    };
    proof {
        assert(gview(pvec@) =~= ps);
    }
    let sf = SystemFn::abs_residual(equation);
    let f = partial_func(&sf, &pvec, guess.0);
    let mut xi = guess.1;
    let dxn = default_dx();
    let mut count: i64 = 0;
    loop
        invariant
            f.wf(),
            f.spec_kind() == FnKind::AbsResidual,
            f.spec_lines() == seq![eq],
            f.spec_vars() == ps,
            f.spec_target() == name,
            dxn@ == newton_dx(),
            eq == equation.spec_bytes(),
            ps == params_view(params),
            name == guess.0@,
            x0 == guess.1@,
            tol == tolerance@,
            max == max_iterations as int,
            0 <= count,
            count as int <= 2147483648,
            nr_run(eq, ps, name, x0, tol, max, 0) == nr_run(eq, ps, name, xi@, tol, max, count as int),
        decreases max + 1 - count as int,
    {
        let fv = match f.call(xi.read()) {
            Some(v) => v,
            None => {
                return SolverResult::Failed;
            },
        };
        if num_lt(&fv, tolerance) {
            return SolverResult::Converged((guess.0, xi));
        }
        let roc0 = match d_dx(&f, xi.read(), &dxn) {
            Some(v) => v,
            None => {
                return SolverResult::Failed;
            },
        };
        let roc = if num_is_zero(&roc0) {
            zero_derivative_sentinel()
        } else {
            roc0
        };
        let fv2 = match f.call(xi.read()) {
            Some(v) => v,
            None => {
                proof {
                    assert(false);
                }
                return SolverResult::Failed;
            },
        };
        let nq = num_neg(&fv2);
        let q = num_div(&nq, &roc);
        let ghost xprev = xi@;
        let ghost cprev = count as int;
        xi.step(&q);
        count = count + 1;
        proof {
            assert(xi@ == step_view(xprev, div_of(neg_of(fv@), roc@)));
            assert(nr_run(eq, ps, name, xprev, tol, max, cprev) == (if cprev + 1 > max {
                NrModel::Exhausted(xi@)
            } else {
                nr_run(eq, ps, name, xi@, tol, max, cprev + 1)
            }));
        }
        if count > max_iterations as i64 {
            return SolverResult::Exhausted((guess.0, xi));
        }
    }
}

/// What the multivariate Newton-Raphson solver can make of its input.
pub ghost enum MvModel {
    /// The total absolute error came under the tolerance.
    Converged(GuessView),
    /// The iteration budget was spent; the guess carries the remaining
    /// error under the name `__error__`.
    Exhausted(GuessView),
    /// No usable step could be computed, or an evaluation failed.
    Failed,
}

/// The total absolute error of the system at a guess view.
pub open spec fn mv_error(system: Seq<Seq<u8>>, gv: GuessView) -> Option<Seq<char>> {
    error_sum_value(system, gv_binds_map(gv))
}

/// The name under which an exhausted run reports its remaining error.
pub open spec fn error_key() -> Seq<char> {
    "__error__"@
}

/// The run of the multivariate Newton-Raphson solver from iteration `count`
/// on: take one Newton step, then stop with the stepped guess where its
/// error is under the tolerance or the budget is spent; any failure to
/// evaluate or to invert ends the run.
pub open spec fn mvnr_run(
    system: Seq<Seq<u8>>,
    gv: GuessView,
    tol: Seq<char>,
    max: int,
    count: int,
) -> MvModel
    decreases max + 1 - count,
{
    match newton_next(system, gv, newton_dx()) {
        StepModel::EvalFailed => MvModel::Failed,
        StepModel::Singular => MvModel::Failed,
        StepModel::Stepped(gv2) => match mv_error(system, gv2) {
            None => MvModel::Failed,
            Some(e) => if lt_of(e, tol) {
                MvModel::Converged(gv2)
            } else if count > max {
                MvModel::Exhausted(gv2.push((error_key(), VarView { value: e, domain: None })))
            } else {
                mvnr_run(system, gv2, tol, max, count + 1)
            },
        },
    }
}

/// Attempts to solve the equations passed to `system` via the
/// Newton-Raphson method.  The system must be square: as many equations as
/// guess variables.
pub fn mv_newton_raphson(
    system: Vec<&str>,
    guess: Vec<(String, Variable)>,
    tolerance: &Num,
    max_iterations: i32,
) -> (r: SolverResult<Vec<(String, Variable)>>)
    ensures
        system@.len() != guess@.len() ==> r is Failed,
        system@.len() == guess@.len() ==> match r {
            SolverResult::Converged(g2) => mvnr_run(
                sys_bytes(system@),
                gfull(guess@),
                tolerance@,
                max_iterations as int,
                0,
            ) == MvModel::Converged(gfull(g2@)),
            SolverResult::Exhausted(g2) => mvnr_run(
                sys_bytes(system@),
                gfull(guess@),
                tolerance@,
                max_iterations as int,
                0,
            ) == MvModel::Exhausted(gfull(g2@)),
            SolverResult::Failed => mvnr_run(
                sys_bytes(system@),
                gfull(guess@),
                tolerance@,
                max_iterations as int,
                0,
            ) == MvModel::Failed,
        },
{
    let ghost sys = sys_bytes(system@);
    let ghost gv0 = gfull(guess@);
    let ghost tol = tolerance@;
    let ghost max = max_iterations as int;
    if system.len() != guess.len() {
        return SolverResult::Failed;
    }
    let sysfn = SystemFn::error_sum_lines(&system);
    let mut g = guess;
    let dxn = default_dx();
    let mut count: i64 = 0;
    loop
        invariant
            sysfn.wf(),
            sysfn.spec_kind() == FnKind::ErrorSum,
            sysfn.spec_lines() == sys,
            dxn@ == newton_dx(),
            sys == sys_bytes(system@),
            gv0 == gfull(guess@),
            tol == tolerance@,
            max == max_iterations as int,
            system@.len() == guess@.len(),
            g@.len() == system@.len(),
            0 <= count,
            count as int <= 2147483648,
            mvnr_run(sys, gv0, tol, max, 0) == mvnr_run(sys, gfull(g@), tol, max, count as int),
        decreases max + 1 - count as int,
    {
        let ghost gv_prev = gfull(g@);
        g = match newton_iteration(&system, g, &dxn) {
            Ok(g2) => g2,
            Err(_) => {
                return SolverResult::Failed;
            },
        };
        let e = match sysfn.eval_at(&g) {
            Some(e) => e,
            None => {
                proof {
                    lemma_guess_bindings(g@);
                    assert(bindings_of(g@) == gv_binds_map(gfull(g@)));
                }
                return SolverResult::Failed;
            },
        };
        proof {
            lemma_guess_bindings(g@);
            assert(bindings_of(g@) == gv_binds_map(gfull(g@)));
            assert(mv_error(sys, gfull(g@)) == Some(e@));
        }
        if num_lt(&e, tolerance) {
            return SolverResult::Converged(g);
        }
        if count > max_iterations as i64 {
            let ghost gv2 = gfull(g@);
            g.push(("__error__".to_owned(), Variable::new(e, None)));
            proof {
                assert(gfull(g@) =~= gv2.push(
                    (error_key(), VarView { value: e@, domain: None }),
                ));
            }
            return SolverResult::Exhausted(g);
        }
        count = count + 1;
    }
}

/// After any mutation of a variable with a domain, the value lies at one of
/// the bounds or strictly inside the interval: a candidate never escapes
/// the domain, and is never silently ignored - it lands exactly where the
/// policy sends it.
pub proof fn lemma_clamp_on_domain(candidate: Seq<char>, lo: Seq<char>, hi: Seq<char>)
    ensures
        ({
            let r = clamped(candidate, Some((lo, hi)));
            r == lo || r == hi || (lt_of(lo, r) && lt_of(r, hi))
        }),
{
}

/// The view of an optional domain of `Num` bounds.
pub open spec fn domain_view(domain: Option<(Num, Num)>) -> Option<(Seq<char>, Seq<char>)> {
    match domain {
        Some((lo, hi)) => Some((lo@, hi@)),
        None => None,
    }
}

/// Copies an optional domain.
fn dup_domain(domain: &Option<(Num, Num)>) -> (r: Option<(Num, Num)>)
    ensures
        domain_view(r) == domain_view(*domain),
{
    match domain {
        Some((lo, hi)) => Some((lo.dup(), hi.dup())),
        None => None,
    }
}

} // verus!
