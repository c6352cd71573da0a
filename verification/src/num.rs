//! The numeric boundary of the solver.
//!
//! Every scalar the solver works with is carried as decimal text in a [`Num`].
//! Reading such a text as a 64-bit float, arithmetic on the values, and the
//! evaluation of expression strings are all done by the `meval` crate and by
//! the float operations of std; none of that is verified here.  Instead, each
//! such result is named by an uninterpreted spec function of the texts alone
//! (`eval_of`, `lt_of`, `zero_of`), and everything the solver does on top of
//! these names is verified exactly.

use vstd::prelude::*;
use vstd::string::StringSliceAdditionalSpecFns;

verus! {

/// A scalar carried as decimal text, e.g. `"1.5"`, `"-8"`, `"2e-7"`.
///
/// The text is read as a 64-bit float by the trusted boundary below whenever a
/// value is needed; a text that does not parse behaves as a NaN.
#[derive(Debug)]
pub struct Num {
    text: String,
}

impl View for Num {
    type V = Seq<char>;

    closed spec fn view(&self) -> Seq<char> {
        self.text@
    }
}

impl Num {
    /// Wraps a decimal text as a scalar.
    pub fn new(text: &str) -> (r: Num)
        ensures
            r@ == text@,
    {
        Num { text: text.to_owned() }
    }

    /// The decimal text itself.
    pub fn as_text(&self) -> (r: &str)
        ensures
            r@ == self@,
    {
        self.text.as_str()
    }

    /// An independent copy of the scalar.
    pub fn dup(&self) -> (r: Num)
        ensures
            r@ == self@,
    {
        Num { text: self.text.clone() }
    }
}

/// Declares meval's evaluation context so that values of it can be carried
/// through verified code; the type stays opaque here.
#[verifier::external_type_specification]
#[verifier::external_body]
pub struct ExContext<'a>(meval::Context<'a>);

/// The variable bindings that the library has added to an evaluation context,
/// as a map from variable name to the bound decimal text.
pub uninterp spec fn ctx_vars(c: meval::Context<'static>) -> Map<Seq<char>, Seq<char>>;

/// What evaluating the expression bytes `e` under variable bindings `vars`
/// (on top of a fresh context with the built-in constants and functions)
/// returns: `None` where the evaluation fails, otherwise the decimal text of
/// the resulting float.  The result depends on the expression text and the
/// bindings alone.
pub uninterp spec fn eval_of(e: Seq<u8>, vars: Map<Seq<char>, Seq<char>>) -> Option<Seq<char>>;

/// Whether the float read from text `a` is strictly below the one read from
/// text `b`; false wherever either is a NaN.
pub uninterp spec fn lt_of(a: Seq<char>, b: Seq<char>) -> bool;

/// Whether the float read from text `a` is exactly zero.
pub uninterp spec fn zero_of(a: Seq<char>) -> bool;

/// No bindings at all: what a fresh context starts from.
pub open spec fn no_bindings() -> Map<Seq<char>, Seq<char>> {
    Map::empty()
}

/// Relies on meval::Context::new: a fresh context holding only the built-in
/// constants and functions, with no bindings added by the library yet.
#[verifier::external_body]
pub(crate) fn ctx_new() -> (c: meval::Context<'static>)
    ensures
        ctx_vars(c) == no_bindings(),
{
    meval::Context::new()
}

/// Relies on meval::Context::var: binds a variable name to the float read
/// from the given decimal text (a text that does not parse, or that is
/// empty or only whitespace, binds a NaN), shadowing any earlier binding of
/// the same name.  The whitespace guard stands before the meval::eval_str
/// call because meval's tokenizer panics, instead of erroring, on a
/// nonempty all-whitespace input.
#[verifier::external_body]
pub(crate) fn ctx_var(c: &mut meval::Context<'static>, name: &str, val: &Num)
    ensures
        ctx_vars(*final(c)) == ctx_vars(*old(c)).insert(name@, val@),
{
    let v = if val.text.trim().is_empty() {
        "NaN".parse().unwrap()
    } else {
        meval::eval_str(&val.text).unwrap_or("NaN".parse().unwrap())
    };
    c.var(name, v);
}

/// Relies on meval::eval_str_with_context: parses the expression bytes and
/// evaluates them under the context's bindings; the resulting float is
/// rendered back to decimal text.  An expression that is empty or only
/// whitespace fails without reaching meval, whose tokenizer panics, instead
/// of erroring, on a nonempty all-whitespace input.
#[verifier::external_body]
pub(crate) fn eval_in_ctx(e: &[u8], c: &meval::Context<'static>) -> (r: Option<Num>)
    ensures
        r is Some <==> eval_of(e@, ctx_vars(*c)) is Some,
        r is Some ==> r.unwrap()@ == eval_of(e@, ctx_vars(*c)).unwrap(),
{
    let s = String::from_utf8_lossy(e);
    if s.trim().is_empty() {
        return None;
    }
    match meval::eval_str_with_context(s.as_ref(), c) {
        Ok(v) => Some(Num { text: format!("{}", v) }),
        Err(_) => None,
    }
}

/// Relies on meval::eval_str (to read each text as a float; an empty or
/// all-whitespace text reads as a NaN without reaching meval, whose
/// tokenizer panics on such an input) and on the `<` comparison of 64-bit
/// floats.
#[verifier::external_body]
pub(crate) fn num_lt(a: &Num, b: &Num) -> (r: bool)
    ensures
        r == lt_of(a@, b@),
{
    let x = if a.text.trim().is_empty() {
        "NaN".parse().unwrap()
    } else {
        meval::eval_str(&a.text).unwrap_or("NaN".parse().unwrap())
    };
    let y = if b.text.trim().is_empty() {
        "NaN".parse().unwrap()
    } else {
        meval::eval_str(&b.text).unwrap_or("NaN".parse().unwrap())
    };
    x < y
}

/// Relies on meval::eval_str (to read the text as a float; an empty or
/// all-whitespace text reads as a NaN without reaching meval, whose
/// tokenizer panics on such an input) and on the `==` comparison of 64-bit
/// floats against zero.
#[verifier::external_body]
pub(crate) fn num_is_zero(a: &Num) -> (r: bool)
    ensures
        r == zero_of(a@),
{
    let x = if a.text.trim().is_empty() {
        "NaN".parse().unwrap()
    } else {
        meval::eval_str(&a.text).unwrap_or("NaN".parse().unwrap())
    };
    let z = "0".parse().unwrap();
    x == z
}

/// A single binding of the left operand name.
pub open spec fn one_binding(a: Seq<char>) -> Map<Seq<char>, Seq<char>> {
    Map::empty().insert("va"@, a)
}

/// Bindings of the two operand names, left then right.
pub open spec fn two_bindings(a: Seq<char>, b: Seq<char>) -> Map<Seq<char>, Seq<char>> {
    Map::empty().insert("va"@, a).insert("vb"@, b)
}

/// The text a failed operand evaluation falls back to.
pub open spec fn nan_text() -> Seq<char> {
    "NaN"@
}

/// The text that evaluating `e` under `vars` produces, with the NaN fallback.
pub open spec fn op_of(e: Seq<u8>, vars: Map<Seq<char>, Seq<char>>) -> Seq<char> {
    match eval_of(e, vars) {
        Some(t) => t,
        None => nan_text(),
    }
}

/// The sum of the floats read from the two texts.
pub open spec fn add_of(a: Seq<char>, b: Seq<char>) -> Seq<char> {
    op_of("va + vb".spec_bytes(), two_bindings(a, b))
}

/// The difference of the floats read from the two texts.
pub open spec fn sub_of(a: Seq<char>, b: Seq<char>) -> Seq<char> {
    op_of("va - vb".spec_bytes(), two_bindings(a, b))
}

/// The product of the floats read from the two texts.
pub open spec fn mul_of(a: Seq<char>, b: Seq<char>) -> Seq<char> {
    op_of("va * vb".spec_bytes(), two_bindings(a, b))
}

/// The quotient of the floats read from the two texts.
pub open spec fn div_of(a: Seq<char>, b: Seq<char>) -> Seq<char> {
    op_of("va / vb".spec_bytes(), two_bindings(a, b))
}

/// The negation of the float read from the text.
pub open spec fn neg_of(a: Seq<char>) -> Seq<char> {
    op_of("-va".spec_bytes(), one_binding(a))
}

/// The absolute value of the float read from the text.
pub open spec fn abs_of(a: Seq<char>) -> Seq<char> {
    op_of("abs(va)".spec_bytes(), one_binding(a))
}

/// The square root of the float read from the text.
pub open spec fn sqrt_of(a: Seq<char>) -> Seq<char> {
    op_of("sqrt(va)".spec_bytes(), one_binding(a))
}

/// Evaluates a fixed two-operand expression over the boundary.
fn eval_binary(e: &[u8], a: &Num, b: &Num) -> (r: Num)
    ensures
        r@ == op_of(e@, two_bindings(a@, b@)),
{
    let mut c = ctx_new();
    ctx_var(&mut c, "va", a);
    ctx_var(&mut c, "vb", b);
    match eval_in_ctx(e, &c) {
        Some(n) => n,
        None => Num::new("NaN"),
    }
}

/// Evaluates a fixed one-operand expression over the boundary.
fn eval_unary(e: &[u8], a: &Num) -> (r: Num)
    ensures
        r@ == op_of(e@, one_binding(a@)),
{
    let mut c = ctx_new();
    ctx_var(&mut c, "va", a);
    match eval_in_ctx(e, &c) {
        Some(n) => n,
        None => Num::new("NaN"),
    }
}

/// `a + b` on the floats behind the texts.
pub fn num_add(a: &Num, b: &Num) -> (r: Num)
    ensures
        r@ == add_of(a@, b@),
{
    eval_binary("va + vb".as_bytes(), a, b)
}

/// `a - b` on the floats behind the texts.
pub fn num_sub(a: &Num, b: &Num) -> (r: Num)
    ensures
        r@ == sub_of(a@, b@),
{
    eval_binary("va - vb".as_bytes(), a, b)
}

/// `a * b` on the floats behind the texts.
pub fn num_mul(a: &Num, b: &Num) -> (r: Num)
    ensures
        r@ == mul_of(a@, b@),
{
    eval_binary("va * vb".as_bytes(), a, b)
}

/// `a / b` on the floats behind the texts.
pub fn num_div(a: &Num, b: &Num) -> (r: Num)
    ensures
        r@ == div_of(a@, b@),
{
    eval_binary("va / vb".as_bytes(), a, b)
}

/// `-a` on the float behind the text.
pub fn num_neg(a: &Num) -> (r: Num)
    ensures
        r@ == neg_of(a@),
{
    eval_unary("-va".as_bytes(), a)
}

/// `|a|` on the float behind the text.
pub fn num_abs(a: &Num) -> (r: Num)
    ensures
        r@ == abs_of(a@),
{
    eval_unary("abs(va)".as_bytes(), a)
}

/// The square root of the float behind the text.
pub fn num_sqrt(a: &Num) -> (r: Num)
    ensures
        r@ == sqrt_of(a@),
{
    eval_unary("sqrt(va)".as_bytes(), a)
}

} // verus!
