use vstd::prelude::*;

verus! {

/// A tradeable or consumable good.
#[derive(PartialEq, Eq, Structural, Hash, Debug, Copy, Clone)]
pub enum GoodType {
    Wheat,
    Barley,
    OliveOil,
    Fish,
    Wine,
    Iron,
    Copper,
    Tin,
    Bronze,
    Silver,
    Gold,
    Lead,
    Salt,
    PurpleDye,
    Marble,
    Wood,
    Textiles,
    LuxuryClothes,
    Slaves,
}

/// How essential a consumable good is: staples are `Tier3`, luxuries `Tier1`.
#[derive(PartialEq, Eq, Structural, Hash, Debug, Copy, Clone)]
pub enum ConsumableGoodCatagory {
    Tier1,
    Tier2,
    Tier3,
}

/// The consumption tier of a good, if it is eaten or drunk at all.
pub open spec fn spec_catagory(g: GoodType) -> Option<ConsumableGoodCatagory> {
    match g {
        GoodType::Wheat | GoodType::Barley => Some(ConsumableGoodCatagory::Tier3),
        GoodType::OliveOil | GoodType::Fish => Some(ConsumableGoodCatagory::Tier2),
        GoodType::Wine => Some(ConsumableGoodCatagory::Tier1),
        _ => None,
    }
}

impl GoodType {
    pub fn consumable_good_catagory(&self) -> (r: Option<ConsumableGoodCatagory>)
        ensures
            r == spec_catagory(*self),
    {
        match *self {
            GoodType::Wheat => Some(ConsumableGoodCatagory::Tier3),
            GoodType::Barley => Some(ConsumableGoodCatagory::Tier3),
            GoodType::OliveOil => Some(ConsumableGoodCatagory::Tier2),
            GoodType::Fish => Some(ConsumableGoodCatagory::Tier2),
            GoodType::Wine => Some(ConsumableGoodCatagory::Tier1),
            _ => None,
        }
    }
}

} // verus!
