//! Formulas: how a derived value is computed from other values.
use vstd::prelude::*;

use crate::keys::Key;

verus! {

/// The number of a registered formula, in order of registration.
#[derive(PartialEq, Eq, Structural, Hash, Debug, Copy, Clone)]
pub struct FormulaName(pub usize);

/// A function of a fixed number of values. `inner` is called with exactly
/// `arity` arguments.
pub struct FormulaFn<G> {
    pub arity: usize,
    pub inner: G,
}

impl<G> FormulaFn<G> {
    pub fn new(arity: usize, inner: G) -> (r: Self)
        ensures
            r.arity == arity,
            r.inner == inner,
    {
        FormulaFn { arity, inner }
    }

    /// A function of one value.
    pub fn new_one(inner: G) -> (r: Self)
        ensures
            r.arity == 1,
            r.inner == inner,
    {
        FormulaFn { arity: 1, inner }
    }

    /// A function of two values.
    pub fn new_two(inner: G) -> (r: Self)
        ensures
            r.arity == 2,
            r.inner == inner,
    {
        FormulaFn { arity: 2, inner }
    }

    /// A function of three values.
    pub fn new_three(inner: G) -> (r: Self)
        ensures
            r.arity == 3,
            r.inner == inner,
    {
        FormulaFn { arity: 3, inner }
    }

    /// Calls the function on `args`.
    pub fn run<V>(&self, args: Vec<V>) -> (r: V) where G: Fn(Vec<V>) -> V
        requires
            args@.len() == self.arity,
            call_requires(self.inner, (args,)),
        ensures
            call_ensures(self.inner, (args,), r),
    {
        (self.inner)(args)
    }
}

/// A derived value: `subject` is computed by `inner_fn` from the values of
/// `inputs`, in order.
pub struct Formula<G> {
    pub inputs: Vec<Key>,
    pub inner_fn: FormulaFn<G>,
    pub subject: Key,
}

impl<G> Formula<G> {
    pub fn new(inputs: Vec<Key>, inner_fn: FormulaFn<G>, subject: Key) -> (r: Self)
        ensures
            r.inputs@ == inputs@,
            r.inner_fn == inner_fn,
            r.subject == subject,
    {
        Formula { inputs, inner_fn, subject }
    }

    /// Applies the formula's function to the values of its inputs.
    pub fn calc<V>(&self, args: Vec<V>) -> (r: V) where G: Fn(Vec<V>) -> V
        requires
            args@.len() == self.inner_fn.arity,
            call_requires(self.inner_fn.inner, (args,)),
        ensures
            call_ensures(self.inner_fn.inner, (args,), r),
    {
        self.inner_fn.run(args)
    }
}

/// The memoised value of a formula; `dirty` means that `cached` may be stale.
pub struct FormulaValue<V> {
    pub cached: V,
    pub dirty: bool,
}

/// Why a formula or a cell was refused.
#[derive(PartialEq, Eq, Structural, Debug, Copy, Clone)]
pub enum FormulaError {
    /// The number of inputs differs from the function's arity.
    ArityMismatch,
    /// The formula's subject is among the values it would be computed from.
    CyclicDependency,
    /// The key is not computed by a formula.
    NotAFormula,
}

} // verus!
