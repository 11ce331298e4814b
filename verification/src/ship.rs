//! A ship class as read from its `@listspecs` sheet.

use vstd::prelude::*;
use crate::number::Number;
use crate::text::{chars_of, contains_seq, find_from_exec};
use crate::weapon::{Weapon, WeaponKind, WeaponModel, WeaponType};
use crate::order::{order_by_slot, slot_order, stable_order};

verus! {

/// The weapons of one kind, in the ship's order.
pub open spec fn weapons_of_kind(s: ShipModel, kind: WeaponKind) -> Seq<WeaponModel> {
    s.weapons.filter(|w: WeaponModel| w.weapon_type == kind)
}

/// The slots of weapons.
pub open spec fn slots_of(ws: Seq<WeaponModel>) -> Seq<i64> {
    ws.map_values(|w: WeaponModel| w.slot)
}

/// Mathematical model of a ship class: texts as character sequences and
/// numbers as their decimal text.
pub struct ShipModel {
    pub dbref: i64,
    pub name: Seq<char>,
    pub category: Option<Seq<char>>,
    pub art: Option<Seq<char>>,
    pub class: Seq<char>,
    pub sensor_class: Seq<char>,
    pub ship_type: Seq<char>,
    pub crew: Seq<char>,
    pub crew_tuned: bool,
    pub quota: Seq<char>,
    pub cost: Seq<char>,
    pub structure: Seq<char>,
    pub repair: Seq<char>,
    pub mass: Seq<char>,
    pub bay: Seq<char>,
    pub cargo: Seq<char>,
    pub has_land: bool,
    pub has_dock: bool,
    pub can_land: bool,
    pub can_dock: bool,
    pub firing: Seq<char>,
    pub stealth: Seq<char>,
    pub sensors: Seq<char>,
    pub cloak_eff: Seq<char>,
    pub cloak: Option<Seq<char>>,
    pub fuel_eff: Seq<char>,
    pub aux_max: Seq<char>,
    pub main_max: Seq<char>,
    pub fuel_max: Seq<char>,
    pub main: Seq<char>,
    pub aux: Seq<char>,
    pub batt: Seq<char>,
    pub warp_cruise: Option<Seq<char>>,
    pub warp_emer: Option<Seq<char>>,
    pub warp_max: Option<Seq<char>>,
    pub warp_cruise_cost: Option<Seq<char>>,
    pub warp_emer_cost: Option<Seq<char>>,
    pub warp_max_cost: Option<Seq<char>>,
    pub warp_type: Option<Seq<char>>,
    pub imp_cruise: Seq<char>,
    pub imp_emer: Seq<char>,
    pub imp_max: Seq<char>,
    pub imp_cruise_cost: Seq<char>,
    pub imp_emer_cost: Seq<char>,
    pub imp_max_cost: Seq<char>,
    pub armor: Seq<char>,
    pub shield_max: Seq<char>,
    pub shield_ratio: Seq<char>,
    pub shield_def_1x: Seq<char>,
    pub shield_def_2x: Seq<char>,
    pub shield_def_3x: Seq<char>,
    pub shield_def_4x: Seq<char>,
    pub shield_cost_1x: Seq<char>,
    pub shield_cost_2x: Seq<char>,
    pub shield_cost_3x: Seq<char>,
    pub shield_cost_4x: Seq<char>,
    pub move_ratio: Seq<char>,
    pub lrs: bool,
    pub srs: bool,
    pub ew: bool,
    pub trans: bool,
    pub tractor: bool,
    pub has_cloak: bool,
    pub beams_count: i64,
    pub beams_dps: Seq<char>,
    pub missiles_count: Option<i64>,
    pub missiles_dps: Option<Seq<char>>,
    pub weapons: Seq<WeaponModel>,
    pub source_log: Option<Seq<char>>,
    pub source_line: Option<i64>,
    pub parsed_at: Option<Seq<char>>,
}

/// A ship class's specs. Numbers keep the decimal text of the sheet.
pub struct Ship {
    pub dbref: i64,
    pub name: String,
    pub category: Option<String>,
    /// The ASCII art, lines joined by line feeds.
    pub art: Option<String>,
    pub class: String,
    pub sensor_class: String,
    pub ship_type: String,
    pub crew: Number,
    pub crew_tuned: bool,
    /// A whole number in the sheet; its text as read.
    pub quota: Number,
    pub cost: Number,
    pub structure: Number,
    pub repair: Number,
    pub mass: Number,
    pub bay: Number,
    pub cargo: Number,
    pub has_land: bool,
    pub has_dock: bool,
    pub can_land: bool,
    pub can_dock: bool,
    pub firing: Number,
    pub stealth: Number,
    pub sensors: Number,
    /// `Cloak:` on the sensors line.
    pub cloak_eff: Number,
    /// The cloaking device's power cost; `None` without a device.
    pub cloak: Option<Number>,
    pub fuel_eff: Number,
    pub aux_max: Number,
    pub main_max: Number,
    pub fuel_max: Number,
    pub main: Number,
    pub aux: Number,
    pub batt: Number,
    pub warp_cruise: Option<Number>,
    pub warp_emer: Option<Number>,
    pub warp_max: Option<Number>,
    pub warp_cruise_cost: Option<Number>,
    pub warp_emer_cost: Option<Number>,
    pub warp_max_cost: Option<Number>,
    pub warp_type: Option<String>,
    pub imp_cruise: Number,
    pub imp_emer: Number,
    pub imp_max: Number,
    pub imp_cruise_cost: Number,
    pub imp_emer_cost: Number,
    pub imp_max_cost: Number,
    pub armor: Number,
    pub shield_max: Number,
    pub shield_ratio: Number,
    pub shield_def_1x: Number,
    pub shield_def_2x: Number,
    pub shield_def_3x: Number,
    pub shield_def_4x: Number,
    pub shield_cost_1x: Number,
    pub shield_cost_2x: Number,
    pub shield_cost_3x: Number,
    pub shield_cost_4x: Number,
    pub move_ratio: Number,
    pub lrs: bool,
    pub srs: bool,
    pub ew: bool,
    pub trans: bool,
    pub tractor: bool,
    pub has_cloak: bool,
    pub beams_count: i64,
    pub beams_dps: Number,
    pub missiles_count: Option<i64>,
    pub missiles_dps: Option<Number>,
    /// Weapons in sheet order: beams, then missiles.
    pub weapons: Vec<Weapon>,
    /// Where the sheet came from.
    pub source_log: Option<String>,
    pub source_line: Option<i64>,
    pub parsed_at: Option<String>,
}

impl View for Ship {
    type V = ShipModel;

    open spec fn view(&self) -> ShipModel {
        ShipModel {
            dbref: self.dbref,
            name: self.name@,
            category: self.category.deep_view(),
            art: self.art.deep_view(),
            class: self.class@,
            sensor_class: self.sensor_class@,
            ship_type: self.ship_type@,
            crew: self.crew@,
            crew_tuned: self.crew_tuned,
            quota: self.quota@,
            cost: self.cost@,
            structure: self.structure@,
            repair: self.repair@,
            mass: self.mass@,
            bay: self.bay@,
            cargo: self.cargo@,
            has_land: self.has_land,
            has_dock: self.has_dock,
            can_land: self.can_land,
            can_dock: self.can_dock,
            firing: self.firing@,
            stealth: self.stealth@,
            sensors: self.sensors@,
            cloak_eff: self.cloak_eff@,
            cloak: self.cloak.deep_view(),
            fuel_eff: self.fuel_eff@,
            aux_max: self.aux_max@,
            main_max: self.main_max@,
            fuel_max: self.fuel_max@,
            main: self.main@,
            aux: self.aux@,
            batt: self.batt@,
            warp_cruise: self.warp_cruise.deep_view(),
            warp_emer: self.warp_emer.deep_view(),
            warp_max: self.warp_max.deep_view(),
            warp_cruise_cost: self.warp_cruise_cost.deep_view(),
            warp_emer_cost: self.warp_emer_cost.deep_view(),
            warp_max_cost: self.warp_max_cost.deep_view(),
            warp_type: self.warp_type.deep_view(),
            imp_cruise: self.imp_cruise@,
            imp_emer: self.imp_emer@,
            imp_max: self.imp_max@,
            imp_cruise_cost: self.imp_cruise_cost@,
            imp_emer_cost: self.imp_emer_cost@,
            imp_max_cost: self.imp_max_cost@,
            armor: self.armor@,
            shield_max: self.shield_max@,
            shield_ratio: self.shield_ratio@,
            shield_def_1x: self.shield_def_1x@,
            shield_def_2x: self.shield_def_2x@,
            shield_def_3x: self.shield_def_3x@,
            shield_def_4x: self.shield_def_4x@,
            shield_cost_1x: self.shield_cost_1x@,
            shield_cost_2x: self.shield_cost_2x@,
            shield_cost_3x: self.shield_cost_3x@,
            shield_cost_4x: self.shield_cost_4x@,
            move_ratio: self.move_ratio@,
            lrs: self.lrs,
            srs: self.srs,
            ew: self.ew,
            trans: self.trans,
            tractor: self.tractor,
            has_cloak: self.has_cloak,
            beams_count: self.beams_count,
            beams_dps: self.beams_dps@,
            missiles_count: self.missiles_count,
            missiles_dps: self.missiles_dps.deep_view(),
            weapons: self.weapons@.map_values(|w: Weapon| w@),
            source_log: self.source_log.deep_view(),
            source_line: self.source_line,
            parsed_at: self.parsed_at.deep_view(),
        }
    }
}

/// The lowercase form of a string, as `str::to_lowercase` gives it
/// (Unicode lowercase mapping).
pub uninterp spec fn lowercase(s: Seq<char>) -> Seq<char>;

/// Calls `str::to_lowercase`. Claimed: the result depends on the text
/// alone, and is named `lowercase`; the Unicode case mapping itself (which
/// may change a string's length) is left unsaid.
#[verifier::external_body]
pub(crate) fn to_lowercase(s: &str) -> (r: String)
    ensures
        r@ == lowercase(s@),
{
    s.to_lowercase()
}

/// Whether a warp drive type names a transwarp drive.
pub open spec fn warp_type_is_transwarp(t: Option<Seq<char>>) -> bool {
    match t {
        Some(w) => contains_seq(lowercase(w), "transwarp"@),
        None => false,
    }
}

/// Whether a ship's warp drive is a transwarp drive.
pub fn is_transwarp(ship: &Ship) -> (r: bool)
    ensures
        r == warp_type_is_transwarp(ship@.warp_type),
{
    match &ship.warp_type {
        Some(w) => {
            let lower = to_lowercase(w.as_str());
            let hay = chars_of(lower.as_str());
            let needle = chars_of("transwarp");
            find_from_exec(hay.as_slice(), needle.as_slice(), 0).is_some()
        },
        None => false,
    }
}

impl Ship {
    /// Whether this ship class is a base.
    pub fn is_base(&self) -> (r: bool)
        ensures
            r == (self@.ship_type == "Base"@),
    {
        let t = chars_of(self.ship_type.as_str());
        let b = chars_of("Base");
        assert(t@.subrange(0, t@.len() as int) =~= t@);
        t.len() == b.len() && crate::text::matches_at_exec(t.as_slice(), b.as_slice(), 0)
    }

    /// The weapons of one kind, in slot order; weapons with the same slot
    /// keep their order in the ship.
    pub fn weapons_of<'a>(&'a self, kind: &WeaponType) -> (r: Vec<&'a Weapon>)
        ensures
            r@.len() == weapons_of_kind(self@, kind@).len(),
            exists|p: Seq<usize>|
                stable_order(slots_of(weapons_of_kind(self@, kind@)), slot_order(), p) && forall|
                    k: int,
                | 0 <= k < r@.len() ==> #[trigger] r@[k]@ == weapons_of_kind(self@, kind@)[p[k] as int],
    {
        let ghost ws = weapons_of_kind(self@, kind@);
        let mut picked: Vec<&'a Weapon> = Vec::new();
        let mut k: usize = 0;
        while k < self.weapons.len()
            invariant
                k <= self.weapons@.len(),
                picked@.map_values(|w: &Weapon| w@) == self@.weapons.take(k as int).filter(
                    |w: WeaponModel| w.weapon_type == kind@,
                ),
            decreases self.weapons@.len() - k,
        {
            let w = &self.weapons[k];
            proof {
                let ws = self@.weapons;
                assert(ws.take(k + 1).drop_last() =~= ws.take(k as int));
                assert(ws.take(k + 1).last() == w@);
                reveal(Seq::filter);
            }
            if w.weapon_type == *kind {
                picked.push(w);
                assert(picked@.map_values(|w: &Weapon| w@) =~= self@.weapons.take(k as int).filter(
                    |w: WeaponModel| w.weapon_type == kind@,
                ).push(w@));
            }
            k = k + 1;
        }
        assert(self@.weapons.take(self@.weapons.len() as int) =~= self@.weapons);
        assert(picked@.map_values(|w: &Weapon| w@) == ws);
        let mut slots: Vec<i64> = Vec::new();
        let mut j: usize = 0;
        while j < picked.len()
            invariant
                picked@.map_values(|w: &Weapon| w@) == ws,
                j <= picked@.len(),
                slots@.len() == j,
                forall|m: int| 0 <= m < j ==> #[trigger] slots@[m] == ws[m].slot,
            decreases picked@.len() - j,
        {
            assert(ws[j as int] == picked@[j as int]@);
            slots.push(picked[j].slot);
            j = j + 1;
        }
        assert(slots@ =~= slots_of(ws));
        let p = order_by_slot(slots.as_slice());
        let mut r: Vec<&'a Weapon> = Vec::new();
        let mut m: usize = 0;
        while m < p.len()
            invariant
                picked@.map_values(|w: &Weapon| w@) == ws,
                stable_order(slots_of(ws), slot_order(), p@),
                slots_of(ws).len() == ws.len(),
                m <= p@.len(),
                r@.len() == m,
                forall|q: int| 0 <= q < m ==> #[trigger] r@[q]@ == ws[p@[q] as int],
            decreases p@.len() - m,
        {
            assert(p@[m as int] < ws.len());
            let idx = p[m];
            assert(picked@[idx as int]@ == ws[idx as int]);
            r.push(picked[idx]);
            m = m + 1;
        }
        r
    }
}

} // verus!
