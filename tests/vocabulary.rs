use iron::coords::Coordinate;
use iron::factor::Factor;
use iron::formula::FormulaName;
use iron::geography::{District, DistrictType, Districts, SettlementFeature, SettlementLevel};
use iron::places::{Featured, Settlement};
use iron::goods::{ConsumableGoodCatagory, GoodType};
use iron::keys::{GameId, GameIdVecProvider};
use iron::kids::KidBuffer;
use iron::polity::{PolityLevel, SuccessorLaw, Title};

#[test]
fn neighbors_in_fixed_order() {
    let c = Coordinate::new(2, -1);
    let n = c.neighbors();
    assert_eq!(
        n,
        vec![
            Coordinate::new(3, -1),
            Coordinate::new(3, -2),
            Coordinate::new(2, -2),
            Coordinate::new(1, -1),
            Coordinate::new(1, 0),
            Coordinate::new(2, 0),
        ]
    );
    for m in n.iter() {
        assert_eq!(c.dist(*m), 1);
    }
}

#[test]
fn shuffled_neighbors_are_a_permutation() {
    let c = Coordinate::new(0, 0);
    let mut a = c.neighbors_shuffled();
    let mut b = c.neighbors();
    a.sort_by_key(|p| (p.x, p.y));
    b.sort_by_key(|p| (p.x, p.y));
    assert_eq!(a, b);
    let mut it = c.neighbors_shuffled_iter();
    let mut count = 0;
    while let Some(p) = it.next() {
        assert_eq!(c.dist(p), 1);
        count += 1;
    }
    assert_eq!(count, 6);
}

#[test]
fn iterator_hands_out_from_the_back() {
    let c = Coordinate::new(0, 0);
    let mut it = c.neighbors_iter();
    assert_eq!(it.next(), Some(Coordinate::new(0, 1)));
    assert_eq!(it.next(), Some(Coordinate::new(-1, 1)));
    for _ in 0..4 {
        assert!(it.next().is_some());
    }
    assert_eq!(it.next(), None);
}

#[test]
fn cells_within_radius() {
    let c = Coordinate::new(5, 7);
    assert_eq!(c.neighbors_in_radius(0), vec![c]);
    assert_eq!(c.neighbors_in_radius(1).len(), 7);
    let r2 = c.neighbors_in_radius(2);
    assert_eq!(r2.len(), 19);
    for p in r2.iter() {
        assert!(c.dist(*p) <= 2);
    }
    assert_eq!(r2[0], Coordinate::new(3, 7));
    assert!(c.neighbors_in_radius(-1).is_empty());
    let mut it = c.neighbors_in_radius_iter(1);
    assert_eq!(it.next(), Some(Coordinate::new(6, 7)));
}

#[test]
fn hex_distance() {
    let a = Coordinate::new(0, 0);
    assert_eq!(a.z(), 0);
    assert_eq!(Coordinate::new(2, 3).z(), -5);
    assert_eq!(a.dist(Coordinate::new(3, -1)), 3);
    assert_eq!(a.dist(Coordinate::new(2, 2)), 4);
    assert_eq!(Coordinate::new(-2, 1).dist(Coordinate::new(1, -3)), 4);
}

#[test]
fn kids_come_of_age_after_twelve_years() {
    let mut k = KidBuffer::new();
    assert_eq!(k.size(), 0);
    for year in 1..=12 {
        assert_eq!(k.spawn(year), year);
    }
    assert_eq!(k.size(), 78);
    assert_eq!(k.spawn(100), 1);
    assert_eq!(k.size(), 177);
    assert_eq!(k.cohort(0), Some(100));
    assert_eq!(k.cohort(11), Some(2));
    assert_eq!(k.cohort(12), None);
}

#[test]
fn starving_never_goes_below_zero() {
    let mut k = KidBuffer::new();
    k.spawn(10);
    k.spawn(20);
    assert_eq!(k.starve(1, 4), 4);
    assert_eq!(k.cohort(1), Some(6));
    assert_eq!(k.starve(0, 50), 20);
    assert_eq!(k.cohort(0), Some(0));
    assert_eq!(k.starve(5, 3), 0);
    assert_eq!(k.starve(1, -3), 0);
    assert_eq!(k.size(), 6);
}

#[test]
fn leader_titles() {
    assert_eq!(PolityLevel::Tribe.leader_title(), "Headman");
    assert_eq!(PolityLevel::Confederacy.leader_title(), "High Chief");
    assert_eq!(PolityLevel::Republic.leader_title(), "Consul");
    assert_eq!(Title::PolityLeader(3).name(PolityLevel::Kingdom, "Ur"), "King of Ur");
    assert_eq!(Title::SettlementLeader(1).name(PolityLevel::Tribe, "Eridu"), "Mayor of Eridu");
}

#[test]
fn consumable_categories() {
    assert!(matches!(GoodType::Wheat.consumable_good_catagory(), Some(ConsumableGoodCatagory::Tier3)));
    assert!(matches!(GoodType::Fish.consumable_good_catagory(), Some(ConsumableGoodCatagory::Tier2)));
    assert!(matches!(GoodType::Wine.consumable_good_catagory(), Some(ConsumableGoodCatagory::Tier1)));
    assert!(GoodType::Marble.consumable_good_catagory().is_none());
}

#[test]
fn districts_keep_their_order() {
    let d = Districts::new(
        District::new(DistrictType::Farmland),
        District::new(DistrictType::Pasture),
        District::new(DistrictType::Forest),
    );
    let kinds: Vec<DistrictType> = d.iter().iter().map(|x| x.dtype).collect();
    assert_eq!(kinds, vec![DistrictType::Farmland, DistrictType::Pasture, DistrictType::Forest]);
}

#[test]
fn game_id_and_cells() {
    assert_eq!(GameId::Pop(4).gids(), vec![GameId::Pop(4)]);
    let leaf = Factor::new_amount(2.5f32);
    assert_eq!(leaf.level, 2.5);
    assert!(!leaf.is_derived());
    let derived = Factor::new_formula(FormulaName(3), 0.0f32);
    assert!(derived.is_derived());
    assert_eq!(derived.formula, Some(FormulaName(3)));
}

#[test]
fn settlement_features_behave_as_a_set() {
    let mut s = Settlement {
        id: 1,
        name: String::from("Uruk"),
        pops: vec![1, 2],
        features: Vec::new(),
        primary_culture: 0,
        province: 3,
        level: SettlementLevel::Village,
        controller: 0,
        headman: 7,
        successor_law: SuccessorLaw::Election,
        ruined: false,
    };
    assert!(!s.has_feature(SettlementFeature::Harbor));
    s.add_feature(SettlementFeature::Harbor);
    s.add_feature(SettlementFeature::Harbor);
    s.add_feature(SettlementFeature::Mines(GoodType::Tin));
    assert!(s.has_feature(SettlementFeature::Harbor));
    assert!(s.has_feature(SettlementFeature::Mines(GoodType::Tin)));
    assert!(!s.has_feature(SettlementFeature::Mines(GoodType::Iron)));
    assert_eq!(s.features.len(), 2);
    s.remove_feature(SettlementFeature::Harbor);
    assert!(!s.has_feature(SettlementFeature::Harbor));
    assert!(s.has_feature(SettlementFeature::Mines(GoodType::Tin)));
}

#[test]
fn radius_one_in_order() {
    let c = Coordinate::new(0, 0);
    assert_eq!(
        c.neighbors_in_radius(1),
        vec![
            Coordinate::new(-1, 0),
            Coordinate::new(-1, 1),
            Coordinate::new(0, -1),
            Coordinate::new(0, 0),
            Coordinate::new(0, 1),
            Coordinate::new(1, -1),
            Coordinate::new(1, 0),
        ]
    );
    let mut it = c.neighbors_in_radius_iter(1);
    assert_eq!(it.next(), Some(Coordinate::new(1, 0)));
    assert_eq!(it.next(), Some(Coordinate::new(1, -1)));
}

#[test]
fn large_cohorts_are_accepted() {
    let mut k = KidBuffer::new();
    k.spawn(1_000_000_000);
    k.spawn(2_000_000_000);
    assert_eq!(k.size(), 3_000_000_000);
}
