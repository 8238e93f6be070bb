//! Polities, their levels of organisation, and the titles of their rulers.
use vstd::prelude::*;

verus! {

#[derive(Debug, Copy, Clone, PartialEq, Eq, Structural, Hash)]
pub enum Sex {
    Male,
    Female,
}

#[derive(Debug, Copy, Clone, PartialEq, Eq, Structural, Hash)]
pub enum CharacterFeature {
    Coward,
    Idiot,
}

/// How a polity is organised.
#[derive(Debug, Copy, Clone, PartialEq, Eq, Structural, Hash)]
pub enum PolityLevel {
    /// One village.
    Tribe,
    /// A few villages united under a chief.
    Chiefdom,
    /// A union of chiefdoms, largely integrated for war.
    Confederacy,
    /// Ruled from a city with its surrounding land.
    CityState,
    /// A hereditary monarchy.
    Kingdom,
    /// Run by and for a noble class.
    Republic,
}

/// The title of the leader of a polity at each level.
pub open spec fn leader_title_of(l: PolityLevel) -> Seq<char> {
    match l {
        PolityLevel::Tribe => "Headman"@,
        PolityLevel::Chiefdom => "Chief"@,
        PolityLevel::Confederacy => "High Chief"@,
        PolityLevel::CityState => "Ruler"@,
        PolityLevel::Kingdom => "King"@,
        PolityLevel::Republic => "Consul"@,
    }
}

impl PolityLevel {
    pub fn leader_title(self) -> (r: &'static str)
        ensures
            r@ == leader_title_of(self),
    {
        match self {
            PolityLevel::Tribe => "Headman",
            PolityLevel::Chiefdom => "Chief",
            PolityLevel::Confederacy => "High Chief",
            PolityLevel::CityState => "Ruler",
            PolityLevel::Kingdom => "King",
            PolityLevel::Republic => "Consul",
        }
    }
}

/// How the next ruler is chosen: the heir is a character's id.
#[derive(Debug, Copy, Clone, PartialEq, Eq, Structural, Hash)]
pub enum SuccessorLaw {
    Inheritance(usize),
    Election,
}

/// A title held by a character: the leadership of a polity or of a
/// settlement, by id.
#[derive(Debug, Copy, Clone, PartialEq, Eq, Structural, Hash)]
pub enum Title {
    PolityLeader(usize),
    SettlementLeader(usize),
}

/// `title`, then " of ", then `place`.
fn title_of_place(title: &str, place: &str) -> (r: String)
    ensures
        r@ == title@ + " of "@ + place@,
{
    let mut r = String::from_str(title);
    r.append(" of ");
    r.append(place);
    r
}

impl Title {
    /// The full title: the leader's title at `level` for a polity, "Mayor" for
    /// a settlement, followed by " of " and the place's name.
    pub fn name(&self, level: PolityLevel, place: &str) -> (r: String)
        ensures
            self is PolityLeader ==> r@ == leader_title_of(level) + " of "@ + place@,
            self is SettlementLeader ==> r@ == "Mayor"@ + " of "@ + place@,
    {
        match self {
            Title::PolityLeader(_) => title_of_place(level.leader_title(), place),
            Title::SettlementLeader(_) => title_of_place("Mayor", place),
        }
    }
}

/// A decision maker that acts once per turn.
pub trait Agent {
    fn decide();
}

/// A decision maker driven by the computer.
pub struct AiAgent {}

} // verus!
