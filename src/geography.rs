//! The land: terrain, climate, districts and the features of places.
use vstd::prelude::*;

use crate::goods::GoodType;

verus! {

#[derive(Debug, Copy, Clone, PartialEq, Eq, Structural, Hash)]
pub enum Terrain {
    Plains,
    Hills,
    Mountains,
    Desert,
    Marsh,
    Forest,
    Ocean,
}

#[derive(Debug, Copy, Clone, PartialEq, Eq, Structural, Hash)]
pub enum Climate {
    Tropical,
    Dry,
    Mild,
    Cold,
}

#[derive(Debug, Copy, Clone, PartialEq, Eq, Structural, Hash)]
pub enum ProvinceFeature {
    Fertile,
    Infertile,
    NaturalHarbor,
}

/// What the land of a district is used for.
#[derive(Debug, Copy, Clone, PartialEq, Eq, Structural, Hash)]
pub enum DistrictType {
    Farmland,
    Forest,
    Pasture,
    Wilderness,
    Vinyards,
    OliveGroves,
}

#[derive(Debug, Copy, Clone, PartialEq, Eq, Structural, Hash)]
pub struct District {
    pub dtype: DistrictType,
}

impl District {
    pub fn new(dtype: DistrictType) -> (r: Self)
        ensures
            r.dtype == dtype,
    {
        District { dtype }
    }
}

/// The three districts of a province.
#[derive(Debug, Copy, Clone)]
pub struct Districts {
    inner: [District; 3],
}

impl Districts {
    pub closed spec fn view(&self) -> Seq<District> {
        self.inner@
    }

    /// The districts, in the order they were given.
    pub fn iter(&self) -> (r: &[District])
        ensures
            r@ == self.view(),
    {
        self.inner.as_slice()
    }

    pub fn new(d1: District, d2: District, d3: District) -> (r: Self)
        ensures
            r.view() == seq![d1, d2, d3],
    {
        let r = Districts { inner: [d1, d2, d3] };
        proof {
            assert(r.inner@ =~= seq![d1, d2, d3]);
        }
        r
    }
}

#[derive(Debug, Copy, Clone, PartialEq, Eq, Structural, Hash)]
pub enum SettlementFeature {
    Hilltop,
    Riverside,
    Oceanside,
    Harbor,
    Mines(GoodType),
    Fertile,
    DominantCrop(GoodType),
    Infertile,
}

#[derive(Debug, Copy, Clone, PartialEq, Eq, Structural, Hash)]
pub enum SettlementLevel {
    Hamlet,
    Village,
    Town,
    City,
    Metropolis,
}

#[derive(Debug, Copy, Clone, PartialEq, Eq, Structural, Hash)]
pub enum Technology {
    Farming,
}

/// A level of technological development.
#[derive(Debug, Copy, Clone, PartialEq, Eq, Structural, Hash)]
pub struct TechLevel(pub usize);

} // verus!
