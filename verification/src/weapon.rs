//! Weapon kinds and their database spelling.

use vstd::prelude::*;
use crate::number::Number;

verus! {

/// Mathematical model of a weapon kind.
pub enum WeaponKind {
    Beam,
    Missile,
    Other(Seq<char>),
}

/// The kind of a weapon system.
#[derive(Debug)]
pub enum WeaponType {
    Beam,
    Missile,
    Other(String),
}

impl View for WeaponType {
    type V = WeaponKind;

    open spec fn view(&self) -> WeaponKind {
        match self {
            WeaponType::Beam => WeaponKind::Beam,
            WeaponType::Missile => WeaponKind::Missile,
            WeaponType::Other(s) => WeaponKind::Other(s@),
        }
    }
}

/// The kind named by a database string.
pub open spec fn kind_from_db(s: Seq<char>) -> WeaponKind {
    if s == "beam"@ {
        WeaponKind::Beam
    } else if s == "missile"@ {
        WeaponKind::Missile
    } else {
        WeaponKind::Other(s)
    }
}

/// The database string of a kind.
pub open spec fn kind_to_db(k: WeaponKind) -> Seq<char> {
    match k {
        WeaponKind::Beam => "beam"@,
        WeaponKind::Missile => "missile"@,
        WeaponKind::Other(s) => s,
    }
}

impl WeaponType {
    /// Parse the database spelling of a weapon kind.
    pub fn from_db(s: &str) -> (r: Self)
        ensures
            r@ == kind_from_db(s@),
    {
        let owned = s.to_owned();
        if owned == "beam".to_owned() {
            WeaponType::Beam
        } else if owned == "missile".to_owned() {
            WeaponType::Missile
        } else {
            WeaponType::Other(owned)
        }
    }

    /// The database spelling of this weapon kind.
    pub fn to_db(&self) -> (r: &str)
        ensures
            r@ == kind_to_db(self@),
    {
        match self {
            WeaponType::Beam => "beam",
            WeaponType::Missile => "missile",
            WeaponType::Other(s) => s.as_str(),
        }
    }
}

impl Clone for WeaponType {
    fn clone(&self) -> (r: Self)
        ensures
            r@ == self@,
    {
        match self {
            WeaponType::Beam => WeaponType::Beam,
            WeaponType::Missile => WeaponType::Missile,
            WeaponType::Other(s) => WeaponType::Other(s.clone()),
        }
    }
}

impl PartialEq for WeaponType {
    fn eq(&self, other: &Self) -> (r: bool) {
        match self {
            WeaponType::Beam => match other {
                WeaponType::Beam => true,
                _ => false,
            },
            WeaponType::Missile => match other {
                WeaponType::Missile => true,
                _ => false,
            },
            WeaponType::Other(a) => match other {
                WeaponType::Other(b) => *a == *b,
                _ => false,
            },
        }
    }
}

impl vstd::std_specs::cmp::PartialEqSpecImpl for WeaponType {
    open spec fn obeys_eq_spec() -> bool {
        true
    }

    open spec fn eq_spec(&self, other: &Self) -> bool {
        self@ == other@
    }
}

/// Mathematical model of a weapon: numbers are their decimal text.
pub struct WeaponModel {
    pub weapon_type: WeaponKind,
    pub slot: i64,
    pub cost: Seq<char>,
    pub range: Seq<char>,
    pub arc: Seq<char>,
    pub damage: Seq<char>,
    pub recycle_time: Seq<char>,
    pub dps: Seq<char>,
}

/// One weapon of a ship, with its numbers as their decimal text.
pub struct Weapon {
    pub weapon_type: WeaponType,
    /// Position within its section, from 1.
    pub slot: i64,
    pub cost: Number,
    pub range: Number,
    /// The faces it can fire on, e.g. F, FAPSD, A.
    pub arc: String,
    pub damage: Number,
    /// Seconds to recycle.
    pub recycle_time: Number,
    pub dps: Number,
}

impl View for Weapon {
    type V = WeaponModel;

    open spec fn view(&self) -> WeaponModel {
        WeaponModel {
            weapon_type: self.weapon_type@,
            slot: self.slot,
            cost: self.cost@,
            range: self.range@,
            arc: self.arc@,
            damage: self.damage@,
            recycle_time: self.recycle_time@,
            dps: self.dps@,
        }
    }
}

impl Clone for Weapon {
    fn clone(&self) -> (r: Self)
        ensures
            r@ == self@,
    {
        Weapon {
            weapon_type: self.weapon_type.clone(),
            slot: self.slot,
            cost: self.cost.clone(),
            range: self.range.clone(),
            arc: self.arc.clone(),
            damage: self.damage.clone(),
            recycle_time: self.recycle_time.clone(),
            dps: self.dps.clone(),
        }
    }
}

impl Weapon {
    /// Whether this weapon is on the forward arc.
    pub fn is_forward(&self) -> (r: bool)
        ensures
            r == self.arc@.contains('F'),
    {
        let cs = crate::text::chars_of(self.arc.as_str());
        let mut k: usize = 0;
        while k < cs.len()
            invariant
                cs@ == self.arc@,
                k <= cs@.len(),
                forall|m: int| 0 <= m < k ==> cs@[m] != 'F',
            decreases cs@.len() - k,
        {
            if cs[k] == 'F' {
                return true;
            }
            k = k + 1;
        }
        false
    }
}

/// Writing a kind's database string and reading it back gives the same
/// string, for every string.
pub proof fn law_db_string_round_trip(s: Seq<char>)
    ensures
        kind_to_db(kind_from_db(s)) == s,
{
}

/// Reading a kind back from its database string gives the same kind,
/// except for an unknown kind spelled like a known one.
pub proof fn law_db_kind_round_trip(k: WeaponKind)
    requires
        k != WeaponKind::Other("beam"@),
        k != WeaponKind::Other("missile"@),
    ensures
        kind_from_db(kind_to_db(k)) == k,
{
    reveal_strlit("beam");
    reveal_strlit("missile");
    assert("beam"@.len() == 4);
    assert("missile"@.len() == 7);
    assert("missile"@ != "beam"@);
}

} // verus!
