//! The records of provinces, polities and settlements. Other entities are
//! referred to by their numeric ids.
use vstd::prelude::*;

use crate::coords::Coordinate;
use crate::geography::{Climate, Districts, ProvinceFeature, SettlementFeature, SettlementLevel, Terrain};
use crate::polity::{PolityLevel, SuccessorLaw};

verus! {

/// Something that carries a set of features of kind `T`.
pub trait Featured<T> {
    spec fn feature_set(&self) -> Set<T>;

    fn has_feature(&self, feature: T) -> (r: bool)
        ensures
            r == self.feature_set().contains(feature),
    ;

    fn add_feature(&mut self, feature: T)
        ensures
            final(self).feature_set() == old(self).feature_set().insert(feature),
    ;

    fn remove_feature(&mut self, feature: T)
        ensures
            final(self).feature_set() == old(self).feature_set().remove(feature),
    ;
}

pub struct Province {
    pub id: usize,
    pub settlement: Option<usize>,
    pub districts: Districts,
    pub controller: Option<usize>,
    pub terrain: Terrain,
    pub climate: Climate,
    pub coordinate: Coordinate,
    pub features: Vec<ProvinceFeature>,
    pub harvest_month: usize,
    pub coastal: bool,
}

pub struct Polity {
    pub id: usize,
    pub name: String,
    pub primary_culture: usize,
    pub capital: Option<usize>,
    pub level: PolityLevel,
    pub leader: usize,
    pub successor_law: SuccessorLaw,
}

/// A place where a settlement could be founded, with the features it would have.
pub struct Site {
    pub features: Vec<SettlementFeature>,
}

pub struct Settlement {
    pub id: usize,
    pub name: String,
    pub pops: Vec<usize>,
    pub features: Vec<SettlementFeature>,
    pub primary_culture: usize,
    pub province: usize,
    pub level: SettlementLevel,
    pub controller: usize,
    pub headman: usize,
    pub successor_law: SuccessorLaw,
    pub ruined: bool,
}

/// Whether `v` holds `f`.
fn contains_feature(v: &Vec<SettlementFeature>, f: SettlementFeature) -> (r: bool)
    ensures
        r == v@.contains(f),
{
    let mut i: usize = 0;
    while i < v.len()
        invariant
            i <= v@.len(),
            forall|j: int| 0 <= j < i ==> v@[j] != f,
        decreases v@.len() - i,
    {
        if v[i] == f {
            return true;
        }
        i += 1;
    }
    false
}

impl Featured<SettlementFeature> for Settlement {
    open spec fn feature_set(&self) -> Set<SettlementFeature> {
        self.features@.to_set()
    }

    fn has_feature(&self, feature: SettlementFeature) -> (r: bool) {
        contains_feature(&self.features, feature)
    }

    fn add_feature(&mut self, feature: SettlementFeature) {
        if !contains_feature(&self.features, feature) {
            let ghost before = self.features@;
            self.features.push(feature);
            proof {
                assert forall|x: SettlementFeature| self.features@.contains(x) <==> before.to_set().insert(feature).contains(x) by {
                    if before.contains(x) {
                        let m = choose|m: int| 0 <= m < before.len() && before[m] == x;
                        assert(self.features@[m] == x);
                    }
                    if x == feature {
                        assert(self.features@[before.len() as int] == x);
                    }
                    if self.features@.contains(x) {
                        let m = choose|m: int| 0 <= m < self.features@.len() && self.features@[m] == x;
                        if m < before.len() {
                            assert(before[m] == x);
                        }
                    }
                }
                assert(self.features@.to_set() =~= before.to_set().insert(feature));
            }
        } else {
            proof {
                assert(self.features@.to_set() =~= self.features@.to_set().insert(feature));
            }
        }
    }

    fn remove_feature(&mut self, feature: SettlementFeature) {
        let ghost before = self.features@;
        let mut kept: Vec<SettlementFeature> = Vec::new();
        let mut i: usize = 0;
        while i < self.features.len()
            invariant
                self.features@ == before,
                i <= before.len(),
                forall|x: SettlementFeature|
                    kept@.contains(x) <==> (x != feature && exists|j: int|
                        0 <= j < i && #[trigger] before[j] == x),
            decreases before.len() - i,
        {
            let f = self.features[i];
            let ghost prev = kept@;
            if f != feature {
                kept.push(f);
            }
            proof {
                assert forall|x: SettlementFeature|
                    kept@.contains(x) <==> (x != feature && exists|j: int|
                        0 <= j < i + 1 && #[trigger] before[j] == x) by {
                    if kept@.contains(x) {
                        let m = choose|m: int| 0 <= m < kept@.len() && kept@[m] == x;
                        if m < prev.len() {
                            assert(prev.contains(x));
                        } else {
                            assert(before[i as int] == x);
                        }
                    }
                    if x != feature && exists|j: int| 0 <= j < i + 1 && #[trigger] before[j] == x {
                        let j = choose|j: int| 0 <= j < i + 1 && #[trigger] before[j] == x;
                        if j < i {
                            assert(prev.contains(x));
                            let m = choose|m: int| 0 <= m < prev.len() && prev[m] == x;
                            assert(kept@[m] == x);
                        } else {
                            assert(kept@[kept@.len() - 1] == x);
                        }
                    }
                }
            }
            i += 1;
        }
        self.features = kept;
        proof {
            assert forall|x: SettlementFeature| self.features@.contains(x) <==> before.to_set().remove(feature).contains(x) by {
                if before.contains(x) {
                    let m = choose|m: int| 0 <= m < before.len() && before[m] == x;
                    assert(before[m] == x);
                }
            }
            assert(self.features@.to_set() =~= before.to_set().remove(feature));
        }
    }
}

} // verus!
