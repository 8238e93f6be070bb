//! A dependency-tracked computation engine for simulation quantities, together
//! with the small vocabulary of game entities that addresses its values.

pub mod goods;
pub mod keys;
pub mod key_index;
pub mod factor;
pub mod formula;
pub mod system;
pub mod coords;
pub mod kids;
pub mod geography;
pub mod polity;
pub mod places;
