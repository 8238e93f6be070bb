use vstd::prelude::*;

use crate::goods::GoodType;

verus! {

/// Identifies one game entity: its kind and its numeric id within that kind.
#[derive(PartialEq, Eq, Structural, Hash, Debug, Copy, Clone)]
pub enum GameId {
    Pop(usize),
    Language(usize),
    Polity(usize),
    Province(usize),
    Culture(usize),
    Settlement(usize),
    Character(usize),
    Religion(usize),
}

/// A named quantity carried by an entity.
#[derive(PartialEq, Eq, Structural, Hash, Debug, Copy, Clone)]
pub enum FactorType {
    SettlementSize,
    SettlementCarryingCapacity,
    SettlementPressure,
    PopDemand(GoodType),
    PopPressure,
    PopSize,
    PopHarvest,
}

/// The kinds of entity that can own factors.
pub trait FactorSubject {}

/// The kinds of quantity that factors can hold.
pub trait FactorField {}

impl FactorSubject for GameId {}

impl FactorField for FactorType {}

/// The address of one quantity: which entity, and which of its quantities.
pub type Key = (GameId, FactorType);

/// Anything that stands for one or more game entities.
pub trait GameIdVecProvider {
    fn gids(&self) -> (r: Vec<GameId>)
        ensures
            r@.len() >= 1,
    ;
}

impl GameIdVecProvider for GameId {
    fn gids(&self) -> (r: Vec<GameId>)
        ensures
            r@ == seq![*self],
    {
        let mut v: Vec<GameId> = Vec::new();
        v.push(*self);
        v
    }
}

} // verus!
