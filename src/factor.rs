//! Single cells of the computation graph.
use vstd::prelude::*;

use crate::formula::FormulaName;

verus! {

/// How a stored level wears away over time.
#[derive(Clone, Copy)]
pub enum FactorDecay<V> {
    Linear(V),
    Exponential(V),
    Constant,
}

/// One cell of a formula system. A cell is either a leaf, whose value is
/// `level`, or derived, when `formula` names the formula that computes it (its
/// `level` is then unused).
#[derive(Clone, Copy)]
pub struct Factor<V> {
    pub level: V,
    pub decay: Option<FactorDecay<V>>,
    pub formula: Option<FormulaName>,
}

impl<V> Factor<V> {
    /// A derived cell computed by `formula_id`; `unused` fills the level.
    pub fn new_formula(formula_id: FormulaName, unused: V) -> (r: Self)
        ensures
            r.formula == Some(formula_id),
            r.level == unused,
            r.decay is None,
    {
        Factor { level: unused, decay: None, formula: Some(formula_id) }
    }

    /// A leaf cell holding `level`, with no decay.
    pub fn new_amount(level: V) -> (r: Self)
        ensures
            r.formula is None,
            r.level == level,
            r.decay is None,
    {
        Factor { level, decay: None, formula: None }
    }

    /// Whether the cell's value comes from a formula.
    pub fn is_derived(&self) -> (r: bool)
        ensures
            r == self.formula is Some,
    {
        self.formula.is_some()
    }
}

} // verus!
