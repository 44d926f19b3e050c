//! Floating point arithmetic as data.
//!
//! A kernel describes what it accumulates as a list of [`Step`]s over [`Expr`]s. An expression
//! is evaluated as it is nested, so the order of the roundings is part of it.
use vstd::prelude::*;

verus! {

/// A floating point expression.
#[derive(Debug, PartialEq)]
pub enum Expr {
    /// The half precision number with these bits.
    Half(u16),
    /// The single precision number with these bits.
    Single(u32),
    /// An integer, converted to single precision.
    Int(i32),
    /// A product.
    Mul(Box<Expr>, Box<Expr>),
    /// A difference.
    Sub(Box<Expr>, Box<Expr>),
}

/// One update of an accumulator.
#[derive(Debug, PartialEq)]
pub enum Step {
    /// Adds the sum of the lanes. The order in which the lanes are summed is left open.
    AddLanes(Vec<Expr>),
    /// Adds the first expression, then subtracts the second.
    AddSub(Expr, Expr),
}

/// The mathematical model of a [`Step`].
#[verifier::ext_equal]
pub enum StepView {
    AddLanes(Seq<Expr>),
    AddSub(Expr, Expr),
}

impl View for Step {
    type V = StepView;

    open spec fn view(&self) -> StepView {
        match self {
            Step::AddLanes(lanes) => StepView::AddLanes(lanes@),
            Step::AddSub(add, sub) => StepView::AddSub(*add, *sub),
        }
    }
}

/// One output that a kernel stores: where, and what it accumulated from zero.
#[derive(Debug, PartialEq)]
pub struct Output {
    pub index: i32,
    pub steps: Vec<Step>,
}

/// The mathematical model of an [`Output`].
#[verifier::ext_equal]
pub struct OutputView {
    pub index: int,
    pub steps: Seq<StepView>,
}

impl View for Output {
    type V = OutputView;

    open spec fn view(&self) -> OutputView {
        OutputView { index: self.index as int, steps: views(self.steps@) }
    }
}

/// The models of all elements of a sequence.
pub open spec fn views<T: View>(s: Seq<T>) -> Seq<T::V> {
    Seq::new(s.len(), |i: int| s[i]@)
}

/// Builds a product.
pub fn product(a: Expr, b: Expr) -> (r: Expr)
    ensures
        r == Expr::Mul(Box::new(a), Box::new(b)),
{
    Expr::Mul(Box::new(a), Box::new(b))
}

/// Builds a difference.
pub fn difference(a: Expr, b: Expr) -> (r: Expr)
    ensures
        r == Expr::Sub(Box::new(a), Box::new(b)),
{
    Expr::Sub(Box::new(a), Box::new(b))
}

/// How stored scale factors are read as numbers. Half precision numbers are whole multiples of
/// two to the minus twenty-four, so an integer reading can be exact.
pub struct Reading {
    pub half: spec_fn(u16) -> int,
    pub single: spec_fn(u32) -> int,
}

/// The exact value of an expression, without any rounding.
pub open spec fn value(e: Expr, reading: Reading) -> int
    decreases e,
{
    match e {
        Expr::Half(bits) => (reading.half)(bits),
        Expr::Single(bits) => (reading.single)(bits),
        Expr::Int(i) => i as int,
        Expr::Mul(a, b) => value(*a, reading) * value(*b, reading),
        Expr::Sub(a, b) => value(*a, reading) - value(*b, reading),
    }
}

/// The sum of `f(0)` up to `f(n - 1)`.
pub open spec fn sum(f: spec_fn(int) -> int, n: int) -> int
    decreases n,
{
    if n <= 0 {
        0
    } else {
        sum(f, n - 1) + f(n - 1)
    }
}

/// The sum of `f(start)` up to `f(start + n - 1)`.
pub open spec fn sum_from(f: spec_fn(int) -> int, start: int, n: int) -> int {
    sum(|i: int| f(start + i), n)
}

/// Sums of equal terms are equal.
pub proof fn lemma_sum_equal(f: spec_fn(int) -> int, g: spec_fn(int) -> int, n: int)
    requires
        forall|i: int| 0 <= i < n ==> #[trigger] f(i) == g(i),
    ensures
        sum(f, n) == sum(g, n),
    decreases n,
{
    if n > 0 {
        lemma_sum_equal(f, g, n - 1);
    }
}

/// A sum in two parts.
pub proof fn lemma_sum_split(f: spec_fn(int) -> int, a: int, b: int)
    requires
        0 <= a,
        0 <= b,
    ensures
        sum(f, a + b) == sum(f, a) + sum_from(f, a, b),
    decreases b,
{
    if b > 0 {
        lemma_sum_split(f, a, b - 1);
    }
}

/// A sum in groups of equal width.
pub proof fn lemma_sum_groups(f: spec_fn(int) -> int, width: int, n: int)
    requires
        0 <= width,
        0 <= n,
    ensures
        sum(|i: int| sum_from(f, width * i, width), n) == sum(f, width * n),
    decreases n,
{
    let g = |i: int| sum_from(f, width * i, width);
    if n > 0 {
        lemma_sum_groups(f, width, n - 1);
        assert(width * (n - 1) + width == width * n && 0 <= width * (n - 1)) by (nonlinear_arith)
            requires
                0 <= width,
                0 < n,
        ;
        lemma_sum_split(f, width * (n - 1), width);
        assert(g(n - 1) == sum_from(f, width * (n - 1), width));
    } else {
        assert(width * n == 0) by (nonlinear_arith)
            requires
                n == 0,
        ;
    }
}

/// A sum that takes turns between two runs.
pub proof fn lemma_sum_interleaved(f: spec_fn(int) -> int, a: int, b: int, n: int)
    requires
        0 <= n,
    ensures
        sum(|t: int| if t % 2 == 0 { f(a + t / 2) } else { f(b + t / 2) }, 2 * n) == sum_from(
            f,
            a,
            n,
        ) + sum_from(f, b, n),
    decreases n,
{
    let g = |t: int| if t % 2 == 0 { f(a + t / 2) } else { f(b + t / 2) };
    if n > 0 {
        lemma_sum_interleaved(f, a, b, n - 1);
        assert(sum(g, 2 * n) == sum(g, 2 * n - 1) + g(2 * n - 1));
        assert(sum(g, 2 * n - 1) == sum(g, 2 * n - 2) + g(2 * n - 2));
        assert(g(2 * n - 1) == f(b + (n - 1)));
        assert(g(2 * n - 2) == f(a + (n - 1)));
    }
}

/// The exact value that a step adds to its accumulator.
pub open spec fn step_value(step: StepView, reading: Reading) -> int {
    match step {
        StepView::AddLanes(lanes) => sum(|l: int| value(lanes[l], reading), lanes.len() as int),
        StepView::AddSub(add, sub) => value(add, reading) - value(sub, reading),
    }
}

/// The exact value of an accumulator that started from zero.
pub open spec fn steps_value(steps: Seq<StepView>, reading: Reading) -> int {
    sum(|i: int| step_value(steps[i], reading), steps.len() as int)
}

/// The model of an output keeps its index and all of its steps, and that of a step its expressions.
pub proof fn law_models_keep_everything(output: Output, i: int)
    requires
        0 <= i < output.steps@.len(),
    ensures
        output@.index == output.index,
        output@.steps.len() == output.steps@.len(),
        match output.steps@[i] {
            Step::AddLanes(lanes) => output@.steps[i] == StepView::AddLanes(lanes@),
            Step::AddSub(a, b) => output@.steps[i] == StepView::AddSub(a, b),
        },
{
}

/// The models of a sequence are those of its elements, in order.
pub proof fn law_models_of_a_sequence<T: View>(s: Seq<T>, i: int)
    requires
        0 <= i < s.len(),
    ensures
        views(s).len() == s.len(),
        views(s)[i] == s[i]@,
{
}

} // verus!
