//! The labelled lines of a `@listspecs` sheet and the fields they set.
//!
//! A line's label is the text before its first colon, trimmed. Each known
//! label sets the fields of its line, each from the value after its own
//! `Name:`; a field is overwritten by every line that sets it, with `None`
//! when its value is missing. A line with an unknown label changes nothing.

use vstd::prelude::*;
use crate::labels::{
    all_floats_after_label, all_floats_after_label_exec, bool_after_label, bool_after_label_exec,
    cloak_is_no, cloak_is_no_exec, float_after_label, float_after_label_exec, string_after_label,
    string_after_label_exec, held_numbers, number_at, NumberList,
};
use crate::number::Number;
use crate::text::{
    chars_of, contains_seq, count_from, count_from_exec, find_from, find_from_exec, first_token,
    first_token_exec, lemma_find_from_some, matches_at_exec, sub_vec, trim, trim_exec,
};

verus! {

/// Which drive's costs the next `Cost:` line gives.
#[derive(PartialEq, Eq, Structural, Clone, Copy)]
pub enum ExpectCost {
    Warp,
    Imp,
}

pub open spec fn opt_chars(o: Option<Vec<char>>) -> Option<Seq<char>> {
    match o {
        Some(v) => Some(v@),
        None => None,
    }
}

pub open spec fn opt_number(o: Option<Number>) -> Option<Seq<char>> {
    match o {
        Some(n) => Some(n@),
        None => None,
    }
}

/// Mathematical model of the fields read from a sheet's labelled lines:
/// texts as character sequences, numbers as their decimal text, each
/// `None` until its label has been read.
pub struct FieldsModel {
    pub class: Option<Seq<char>>,
    pub sensor_class: Option<Seq<char>>,
    pub ship_type: Option<Seq<char>>,
    pub warp_type: Option<Seq<char>>,
    pub crew: Option<Seq<char>>,
    pub quota: Option<Seq<char>>,
    pub cost: Option<Seq<char>>,
    pub structure: Option<Seq<char>>,
    pub repair: Option<Seq<char>>,
    pub mass: Option<Seq<char>>,
    pub bay: Option<Seq<char>>,
    pub cargo: Option<Seq<char>>,
    pub firing: Option<Seq<char>>,
    pub fuel_eff: Option<Seq<char>>,
    pub stealth: Option<Seq<char>>,
    pub cloak_eff: Option<Seq<char>>,
    pub sensors: Option<Seq<char>>,
    pub aux_max: Option<Seq<char>>,
    pub main_max: Option<Seq<char>>,
    pub armor: Option<Seq<char>>,
    pub fuel_max: Option<Seq<char>>,
    pub cloak: Option<Seq<char>>,
    pub main: Option<Seq<char>>,
    pub aux: Option<Seq<char>>,
    pub batt: Option<Seq<char>>,
    pub move_ratio: Option<Seq<char>>,
    pub warp_cruise: Option<Seq<char>>,
    pub warp_emer: Option<Seq<char>>,
    pub warp_max: Option<Seq<char>>,
    pub warp_cruise_cost: Option<Seq<char>>,
    pub warp_emer_cost: Option<Seq<char>>,
    pub warp_max_cost: Option<Seq<char>>,
    pub imp_cruise: Option<Seq<char>>,
    pub imp_emer: Option<Seq<char>>,
    pub imp_max: Option<Seq<char>>,
    pub imp_cruise_cost: Option<Seq<char>>,
    pub imp_emer_cost: Option<Seq<char>>,
    pub imp_max_cost: Option<Seq<char>>,
    pub shield_max: Option<Seq<char>>,
    pub shield_ratio: Option<Seq<char>>,
    pub shield_def_1x: Option<Seq<char>>,
    pub shield_def_2x: Option<Seq<char>>,
    pub shield_def_3x: Option<Seq<char>>,
    pub shield_def_4x: Option<Seq<char>>,
    pub shield_cost_1x: Option<Seq<char>>,
    pub shield_cost_2x: Option<Seq<char>>,
    pub shield_cost_3x: Option<Seq<char>>,
    pub shield_cost_4x: Option<Seq<char>>,
    pub has_land: Option<bool>,
    pub has_dock: Option<bool>,
    pub can_land: Option<bool>,
    pub can_dock: Option<bool>,
    pub lrs: Option<bool>,
    pub srs: Option<bool>,
    pub ew: Option<bool>,
    pub trans: Option<bool>,
    pub tractor: Option<bool>,
    pub has_cloak: Option<bool>,
    pub crew_tuned: bool,
    pub expect_cost: Option<ExpectCost>,
}

/// The fields read so far from a sheet's labelled lines.
pub struct SheetFields {
    pub class: Option<Vec<char>>,
    pub sensor_class: Option<Vec<char>>,
    pub ship_type: Option<Vec<char>>,
    pub warp_type: Option<Vec<char>>,
    pub crew: Option<Number>,
    pub quota: Option<Number>,
    pub cost: Option<Number>,
    pub structure: Option<Number>,
    pub repair: Option<Number>,
    pub mass: Option<Number>,
    pub bay: Option<Number>,
    pub cargo: Option<Number>,
    pub firing: Option<Number>,
    pub fuel_eff: Option<Number>,
    pub stealth: Option<Number>,
    pub cloak_eff: Option<Number>,
    pub sensors: Option<Number>,
    pub aux_max: Option<Number>,
    pub main_max: Option<Number>,
    pub armor: Option<Number>,
    pub fuel_max: Option<Number>,
    pub cloak: Option<Number>,
    pub main: Option<Number>,
    pub aux: Option<Number>,
    pub batt: Option<Number>,
    pub move_ratio: Option<Number>,
    pub warp_cruise: Option<Number>,
    pub warp_emer: Option<Number>,
    pub warp_max: Option<Number>,
    pub warp_cruise_cost: Option<Number>,
    pub warp_emer_cost: Option<Number>,
    pub warp_max_cost: Option<Number>,
    pub imp_cruise: Option<Number>,
    pub imp_emer: Option<Number>,
    pub imp_max: Option<Number>,
    pub imp_cruise_cost: Option<Number>,
    pub imp_emer_cost: Option<Number>,
    pub imp_max_cost: Option<Number>,
    pub shield_max: Option<Number>,
    pub shield_ratio: Option<Number>,
    pub shield_def_1x: Option<Number>,
    pub shield_def_2x: Option<Number>,
    pub shield_def_3x: Option<Number>,
    pub shield_def_4x: Option<Number>,
    pub shield_cost_1x: Option<Number>,
    pub shield_cost_2x: Option<Number>,
    pub shield_cost_3x: Option<Number>,
    pub shield_cost_4x: Option<Number>,
    pub has_land: Option<bool>,
    pub has_dock: Option<bool>,
    pub can_land: Option<bool>,
    pub can_dock: Option<bool>,
    pub lrs: Option<bool>,
    pub srs: Option<bool>,
    pub ew: Option<bool>,
    pub trans: Option<bool>,
    pub tractor: Option<bool>,
    pub has_cloak: Option<bool>,
    pub crew_tuned: bool,
    pub expect_cost: Option<ExpectCost>,
}

impl View for SheetFields {
    type V = FieldsModel;

    open spec fn view(&self) -> FieldsModel {
        FieldsModel {
            class: opt_chars(self.class),
            sensor_class: opt_chars(self.sensor_class),
            ship_type: opt_chars(self.ship_type),
            warp_type: opt_chars(self.warp_type),
            crew: opt_number(self.crew),
            quota: opt_number(self.quota),
            cost: opt_number(self.cost),
            structure: opt_number(self.structure),
            repair: opt_number(self.repair),
            mass: opt_number(self.mass),
            bay: opt_number(self.bay),
            cargo: opt_number(self.cargo),
            firing: opt_number(self.firing),
            fuel_eff: opt_number(self.fuel_eff),
            stealth: opt_number(self.stealth),
            cloak_eff: opt_number(self.cloak_eff),
            sensors: opt_number(self.sensors),
            aux_max: opt_number(self.aux_max),
            main_max: opt_number(self.main_max),
            armor: opt_number(self.armor),
            fuel_max: opt_number(self.fuel_max),
            cloak: opt_number(self.cloak),
            main: opt_number(self.main),
            aux: opt_number(self.aux),
            batt: opt_number(self.batt),
            move_ratio: opt_number(self.move_ratio),
            warp_cruise: opt_number(self.warp_cruise),
            warp_emer: opt_number(self.warp_emer),
            warp_max: opt_number(self.warp_max),
            warp_cruise_cost: opt_number(self.warp_cruise_cost),
            warp_emer_cost: opt_number(self.warp_emer_cost),
            warp_max_cost: opt_number(self.warp_max_cost),
            imp_cruise: opt_number(self.imp_cruise),
            imp_emer: opt_number(self.imp_emer),
            imp_max: opt_number(self.imp_max),
            imp_cruise_cost: opt_number(self.imp_cruise_cost),
            imp_emer_cost: opt_number(self.imp_emer_cost),
            imp_max_cost: opt_number(self.imp_max_cost),
            shield_max: opt_number(self.shield_max),
            shield_ratio: opt_number(self.shield_ratio),
            shield_def_1x: opt_number(self.shield_def_1x),
            shield_def_2x: opt_number(self.shield_def_2x),
            shield_def_3x: opt_number(self.shield_def_3x),
            shield_def_4x: opt_number(self.shield_def_4x),
            shield_cost_1x: opt_number(self.shield_cost_1x),
            shield_cost_2x: opt_number(self.shield_cost_2x),
            shield_cost_3x: opt_number(self.shield_cost_3x),
            shield_cost_4x: opt_number(self.shield_cost_4x),
            has_land: self.has_land,
            has_dock: self.has_dock,
            can_land: self.can_land,
            can_dock: self.can_dock,
            lrs: self.lrs,
            srs: self.srs,
            ew: self.ew,
            trans: self.trans,
            tractor: self.tractor,
            has_cloak: self.has_cloak,
            crew_tuned: self.crew_tuned,
            expect_cost: self.expect_cost,
        }
    }
}

/// The fields before any labelled line: nothing read.
pub open spec fn empty_fields() -> FieldsModel {
    FieldsModel {
        class: None,
        sensor_class: None,
        ship_type: None,
        warp_type: None,
        crew: None,
        quota: None,
        cost: None,
        structure: None,
        repair: None,
        mass: None,
        bay: None,
        cargo: None,
        firing: None,
        fuel_eff: None,
        stealth: None,
        cloak_eff: None,
        sensors: None,
        aux_max: None,
        main_max: None,
        armor: None,
        fuel_max: None,
        cloak: None,
        main: None,
        aux: None,
        batt: None,
        move_ratio: None,
        warp_cruise: None,
        warp_emer: None,
        warp_max: None,
        warp_cruise_cost: None,
        warp_emer_cost: None,
        warp_max_cost: None,
        imp_cruise: None,
        imp_emer: None,
        imp_max: None,
        imp_cruise_cost: None,
        imp_emer_cost: None,
        imp_max_cost: None,
        shield_max: None,
        shield_ratio: None,
        shield_def_1x: None,
        shield_def_2x: None,
        shield_def_3x: None,
        shield_def_4x: None,
        shield_cost_1x: None,
        shield_cost_2x: None,
        shield_cost_3x: None,
        shield_cost_4x: None,
        has_land: None,
        has_dock: None,
        can_land: None,
        can_dock: None,
        lrs: None,
        srs: None,
        ew: None,
        trans: None,
        tractor: None,
        has_cloak: None,
        crew_tuned: false,
        expect_cost: None,
    }
}

impl SheetFields {
    /// No field read yet.
    pub fn new() -> (r: SheetFields)
        ensures
            r@ == empty_fields(),
    {
        SheetFields {
            class: None,
            sensor_class: None,
            ship_type: None,
            warp_type: None,
            crew: None,
            quota: None,
            cost: None,
            structure: None,
            repair: None,
            mass: None,
            bay: None,
            cargo: None,
            firing: None,
            fuel_eff: None,
            stealth: None,
            cloak_eff: None,
            sensors: None,
            aux_max: None,
            main_max: None,
            armor: None,
            fuel_max: None,
            cloak: None,
            main: None,
            aux: None,
            batt: None,
            move_ratio: None,
            warp_cruise: None,
            warp_emer: None,
            warp_max: None,
            warp_cruise_cost: None,
            warp_emer_cost: None,
            warp_max_cost: None,
            imp_cruise: None,
            imp_emer: None,
            imp_max: None,
            imp_cruise_cost: None,
            imp_emer_cost: None,
            imp_max_cost: None,
            shield_max: None,
            shield_ratio: None,
            shield_def_1x: None,
            shield_def_2x: None,
            shield_def_3x: None,
            shield_def_4x: None,
            shield_cost_1x: None,
            shield_cost_2x: None,
            shield_cost_3x: None,
            shield_cost_4x: None,
            has_land: None,
            has_dock: None,
            can_land: None,
            can_dock: None,
            lrs: None,
            srs: None,
            ew: None,
            trans: None,
            tractor: None,
            has_cloak: None,
            crew_tuned: false,
            expect_cost: None,
        }
    }
}

/// The label of a line: the text before its first colon, trimmed; empty
/// without a colon.
pub open spec fn line_label(line: Seq<char>) -> Seq<char> {
    match find_from(line, seq![':'], 0) {
        None => Seq::empty(),
        Some(i) => trim(line.take(i)),
    }
}

/// The `i`-th value of a list, if there is one.
pub open spec fn nth(v: Seq<Seq<char>>, i: int) -> Option<Seq<char>> {
    if 0 <= i < v.len() {
        Some(v[i])
    } else {
        None
    }
}

/// The first word of a text value; `None` when there is none.
pub open spec fn first_word(o: Option<Seq<char>>) -> Option<Seq<char>> {
    match o {
        None => None,
        Some(s) => if first_token(s).len() == 0 {
            None
        } else {
            Some(first_token(s))
        },
    }
}

pub open spec fn class_line(f: FieldsModel, line: Seq<char>) -> FieldsModel {
    FieldsModel {
        class: string_after_label(line, "Class"@),
        crew: float_after_label(line, "Crew"@),
        crew_tuned: contains_seq(line, "(tuned)"@),
        ..f
    }
}

pub open spec fn sensor_class_line(f: FieldsModel, line: Seq<char>) -> FieldsModel {
    FieldsModel {
        sensor_class: string_after_label(line, "SensorClass"@),
        quota: float_after_label(line, "Quota"@),
        ..f
    }
}

pub open spec fn type_line(f: FieldsModel, line: Seq<char>) -> FieldsModel {
    FieldsModel {
        ship_type: first_word(string_after_label(line, "Type"@)),
        cost: float_after_label(line, "Cost"@),
        ..f
    }
}

pub open spec fn structure_line(f: FieldsModel, line: Seq<char>) -> FieldsModel {
    FieldsModel {
        structure: float_after_label(line, "Structure"@),
        repair: float_after_label(line, "Repair"@),
        mass: float_after_label(line, "Mass"@),
        ..f
    }
}

pub open spec fn bay_line(f: FieldsModel, line: Seq<char>) -> FieldsModel {
    FieldsModel {
        bay: float_after_label(line, "Bay"@),
        cargo: float_after_label(line, "Cargo"@),
        ..f
    }
}

pub open spec fn has_land_line(f: FieldsModel, line: Seq<char>) -> FieldsModel {
    FieldsModel {
        has_land: bool_after_label(line, "HasLand"@),
        has_dock: bool_after_label(line, "HasDock"@),
        can_land: bool_after_label(line, "CanLand"@),
        can_dock: bool_after_label(line, "CanDock"@),
        ..f
    }
}

pub open spec fn firing_line(f: FieldsModel, line: Seq<char>) -> FieldsModel {
    FieldsModel {
        firing: float_after_label(line, "Firing"@),
        fuel_eff: float_after_label(line, "FuelEff"@),
        stealth: float_after_label(line, "Stealth"@),
        ..f
    }
}

pub open spec fn cloak_line(f: FieldsModel, line: Seq<char>) -> FieldsModel {
    FieldsModel {
        cloak_eff: float_after_label(line, "Cloak"@),
        sensors: float_after_label(line, "Sensors"@),
        aux_max: float_after_label(line, "AuxMax"@),
        ..f
    }
}

pub open spec fn main_max_line(f: FieldsModel, line: Seq<char>) -> FieldsModel {
    FieldsModel {
        main_max: float_after_label(line, "MainMax"@),
        armor: float_after_label(line, "Armor"@),
        fuel_max: float_after_label(line, "FuelMax"@),
        ..f
    }
}

pub open spec fn lrs_line(f: FieldsModel, line: Seq<char>) -> FieldsModel {
    FieldsModel {
        lrs: bool_after_label(line, "LRS"@),
        srs: bool_after_label(line, "SRS"@),
        ew: bool_after_label(line, "EW"@),
        ..f
    }
}

/// The transporter line; its `Cloak:` is either `No` or the cloaking
/// device's power cost, and anything else leaves the device as it was.
pub open spec fn trans_line(f: FieldsModel, line: Seq<char>) -> FieldsModel {
    let g = FieldsModel {
        trans: bool_after_label(line, "Trans"@),
        tractor: bool_after_label(line, "Tractor"@),
        ..f
    };
    if cloak_is_no(line) {
        FieldsModel { has_cloak: Some(false), cloak: None, ..g }
    } else {
        match float_after_label(line, "Cloak"@) {
            Some(cv) => FieldsModel { has_cloak: Some(true), cloak: Some(cv), ..g },
            None => g,
        }
    }
}

pub open spec fn main_line(f: FieldsModel, line: Seq<char>) -> FieldsModel {
    FieldsModel {
        main: float_after_label(line, "Main"@),
        aux: float_after_label(line, "Aux"@),
        batt: float_after_label(line, "Batt"@),
        ..f
    }
}

pub open spec fn move_ratio_line(f: FieldsModel, line: Seq<char>) -> FieldsModel {
    FieldsModel { move_ratio: float_after_label(line, "MoveRatio"@), ..f }
}

pub open spec fn warp_cruise_line(f: FieldsModel, line: Seq<char>) -> FieldsModel {
    FieldsModel {
        warp_cruise: float_after_label(line, "WarpCruise"@),
        warp_emer: float_after_label(line, "WarpEmer"@),
        warp_max: float_after_label(line, "WarpMax"@),
        expect_cost: Some(ExpectCost::Warp),
        ..f
    }
}

pub open spec fn imp_cruise_line(f: FieldsModel, line: Seq<char>) -> FieldsModel {
    FieldsModel {
        imp_cruise: float_after_label(line, "ImpCruise"@),
        imp_emer: float_after_label(line, "ImpEmer"@),
        imp_max: float_after_label(line, "ImpMax"@),
        expect_cost: Some(ExpectCost::Imp),
        ..f
    }
}

pub open spec fn warp_type_line(f: FieldsModel, line: Seq<char>) -> FieldsModel {
    FieldsModel { warp_type: string_after_label(line, "Warp Type"@), ..f }
}

/// A line of drive costs: only read right after a drive's speed line and
/// with at least three `Cost:` on it.
pub open spec fn cost_line_fits(f: FieldsModel, line: Seq<char>) -> bool {
    f.expect_cost is Some && count_from(line, "Cost:"@, 0) >= 3
}

/// The costs of the drive whose speeds came last.
pub open spec fn cost_line(f: FieldsModel, line: Seq<char>) -> FieldsModel {
    let c = all_floats_after_label(line, "Cost"@);
    if f.expect_cost == Some(ExpectCost::Warp) {
        FieldsModel {
            warp_cruise_cost: nth(c, 0),
            warp_emer_cost: nth(c, 1),
            warp_max_cost: nth(c, 2),
            expect_cost: None,
            ..f
        }
    } else {
        FieldsModel {
            imp_cruise_cost: nth(c, 0),
            imp_emer_cost: nth(c, 1),
            imp_max_cost: nth(c, 2),
            expect_cost: None,
            ..f
        }
    }
}

pub open spec fn shield_max_line(f: FieldsModel, line: Seq<char>) -> FieldsModel {
    FieldsModel {
        shield_max: float_after_label(line, "ShieldMax"@),
        shield_ratio: float_after_label(line, "ShieldRatio"@),
        ..f
    }
}

/// The shield power costs, one for each of the four levels.
pub open spec fn shield_cost_line(f: FieldsModel, line: Seq<char>) -> FieldsModel {
    let v = all_floats_after_label(line, "x Cost"@);
    FieldsModel {
        shield_cost_1x: nth(v, 0),
        shield_cost_2x: nth(v, 1),
        shield_cost_3x: nth(v, 2),
        shield_cost_4x: nth(v, 3),
        ..f
    }
}

/// The shield defense values, one for each of the four levels.
pub open spec fn defense_line(f: FieldsModel, line: Seq<char>) -> FieldsModel {
    let v = all_floats_after_label(line, "Defense"@);
    FieldsModel {
        shield_def_1x: nth(v, 0),
        shield_def_2x: nth(v, 1),
        shield_def_3x: nth(v, 2),
        shield_def_4x: nth(v, 3),
        ..f
    }
}

/// The fields after reading a line outside the art and the weapon tables;
/// `None` for a `Cost` line that does not fit (a sheet the reader refuses).
pub open spec fn apply_label(f: FieldsModel, line: Seq<char>) -> Option<FieldsModel> {
    let label = line_label(line);
    if label == "1x Cost"@ {
        Some(shield_cost_line(f, line))
    } else if label == "Bay"@ {
        Some(bay_line(f, line))
    } else if label == "Class"@ {
        Some(class_line(f, line))
    } else if label == "Cloak"@ {
        Some(cloak_line(f, line))
    } else if label == "Cost"@ {
        if cost_line_fits(f, line) {
            Some(cost_line(f, line))
        } else {
            None
        }
    } else if label == "Defense"@ {
        Some(defense_line(f, line))
    } else if label == "Firing"@ {
        Some(firing_line(f, line))
    } else if label == "HasLand"@ {
        Some(has_land_line(f, line))
    } else if label == "ImpCruise"@ {
        Some(imp_cruise_line(f, line))
    } else if label == "LRS"@ {
        Some(lrs_line(f, line))
    } else if label == "Main"@ {
        Some(main_line(f, line))
    } else if label == "MainMax"@ {
        Some(main_max_line(f, line))
    } else if label == "MoveRatio"@ {
        Some(move_ratio_line(f, line))
    } else if label == "SensorClass"@ {
        Some(sensor_class_line(f, line))
    } else if label == "ShieldMax"@ {
        Some(shield_max_line(f, line))
    } else if label == "Structure"@ {
        Some(structure_line(f, line))
    } else if label == "Trans"@ {
        Some(trans_line(f, line))
    } else if label == "Type"@ {
        Some(type_line(f, line))
    } else if label == "Warp Type"@ {
        Some(warp_type_line(f, line))
    } else if label == "WarpCruise"@ {
        Some(warp_cruise_line(f, line))
    } else {
        Some(f)
    }
}


/// The label of a line: the text before its first colon, trimmed.
pub fn line_label_exec(line: &[char]) -> (r: Vec<char>)
    ensures
        r@ == line_label(line@),
{
    let mut colon: Vec<char> = Vec::new();
    colon.push(':');
    assert(colon@ =~= seq![':']);
    match find_from_exec(line, colon.as_slice(), 0) {
        None => Vec::new(),
        Some(i) => {
            proof {
                lemma_find_from_some(line@, seq![':'], 0, i as int);
            }
            let head = sub_vec(line, 0, i);
            assert(head@ =~= line@.take(i as int));
            trim_exec(head.as_slice())
        },
    }
}

/// Whether a label is the given name.
fn is_label(label: &[char], name: &str) -> (r: bool)
    ensures
        r == (label@ == name@),
{
    let n = chars_of(name);
    if label.len() != n.len() {
        return false;
    }
    let r = matches_at_exec(label, n.as_slice(), 0);
    assert(label@.subrange(0, n@.len() as int) =~= label@);
    r
}

/// The `i`-th number of a list, if there is one.
fn nth_number(v: &NumberList, i: usize) -> (r: Option<Number>)
    ensures
        opt_number(r) == nth(held_numbers(*v), i as int),
{
    match number_at(v, i) {
        Some(x) => Some(x.clone()),
        None => None,
    }
}

impl SheetFields {
    fn read_class(&mut self, line: &[char])
        ensures
            final(self)@ == class_line(old(self)@, line@),
    {
        self.class = string_after_label_exec(line, "Class");
        self.crew = float_after_label_exec(line, "Crew");
        self.crew_tuned = find_from_exec(line, chars_of("(tuned)").as_slice(), 0).is_some();
    }

    fn read_sensor_class(&mut self, line: &[char])
        ensures
            final(self)@ == sensor_class_line(old(self)@, line@),
    {
        self.sensor_class = string_after_label_exec(line, "SensorClass");
        self.quota = float_after_label_exec(line, "Quota");
    }

    fn read_type(&mut self, line: &[char])
        ensures
            final(self)@ == type_line(old(self)@, line@),
    {
        self.ship_type = match string_after_label_exec(line, "Type") {
            None => None,
            Some(v) => {
                let t = first_token_exec(v.as_slice());
                if t.len() == 0 {
                    None
                } else {
                    Some(t)
                }
            },
        };
        self.cost = float_after_label_exec(line, "Cost");
    }

    fn read_structure(&mut self, line: &[char])
        ensures
            final(self)@ == structure_line(old(self)@, line@),
    {
        self.structure = float_after_label_exec(line, "Structure");
        self.repair = float_after_label_exec(line, "Repair");
        self.mass = float_after_label_exec(line, "Mass");
    }

    fn read_bay(&mut self, line: &[char])
        ensures
            final(self)@ == bay_line(old(self)@, line@),
    {
        self.bay = float_after_label_exec(line, "Bay");
        self.cargo = float_after_label_exec(line, "Cargo");
    }

    fn read_has_land(&mut self, line: &[char])
        ensures
            final(self)@ == has_land_line(old(self)@, line@),
    {
        self.has_land = bool_after_label_exec(line, "HasLand");
        self.has_dock = bool_after_label_exec(line, "HasDock");
        self.can_land = bool_after_label_exec(line, "CanLand");
        self.can_dock = bool_after_label_exec(line, "CanDock");
    }

    fn read_firing(&mut self, line: &[char])
        ensures
            final(self)@ == firing_line(old(self)@, line@),
    {
        self.firing = float_after_label_exec(line, "Firing");
        self.fuel_eff = float_after_label_exec(line, "FuelEff");
        self.stealth = float_after_label_exec(line, "Stealth");
    }

    fn read_cloak(&mut self, line: &[char])
        ensures
            final(self)@ == cloak_line(old(self)@, line@),
    {
        self.cloak_eff = float_after_label_exec(line, "Cloak");
        self.sensors = float_after_label_exec(line, "Sensors");
        self.aux_max = float_after_label_exec(line, "AuxMax");
    }

    fn read_main_max(&mut self, line: &[char])
        ensures
            final(self)@ == main_max_line(old(self)@, line@),
    {
        self.main_max = float_after_label_exec(line, "MainMax");
        self.armor = float_after_label_exec(line, "Armor");
        self.fuel_max = float_after_label_exec(line, "FuelMax");
    }

    fn read_lrs(&mut self, line: &[char])
        ensures
            final(self)@ == lrs_line(old(self)@, line@),
    {
        self.lrs = bool_after_label_exec(line, "LRS");
        self.srs = bool_after_label_exec(line, "SRS");
        self.ew = bool_after_label_exec(line, "EW");
    }

    fn read_trans(&mut self, line: &[char])
        ensures
            final(self)@ == trans_line(old(self)@, line@),
    {
        self.trans = bool_after_label_exec(line, "Trans");
        self.tractor = bool_after_label_exec(line, "Tractor");
        if cloak_is_no_exec(line) {
            self.has_cloak = Some(false);
            self.cloak = None;
        } else {
            match float_after_label_exec(line, "Cloak") {
                Some(cv) => {
                    self.has_cloak = Some(true);
                    self.cloak = Some(cv);
                },
                None => {},
            }
        }
    }

    fn read_main(&mut self, line: &[char])
        ensures
            final(self)@ == main_line(old(self)@, line@),
    {
        self.main = float_after_label_exec(line, "Main");
        self.aux = float_after_label_exec(line, "Aux");
        self.batt = float_after_label_exec(line, "Batt");
    }

    fn read_move_ratio(&mut self, line: &[char])
        ensures
            final(self)@ == move_ratio_line(old(self)@, line@),
    {
        self.move_ratio = float_after_label_exec(line, "MoveRatio");
    }

    fn read_warp_cruise(&mut self, line: &[char])
        ensures
            final(self)@ == warp_cruise_line(old(self)@, line@),
    {
        self.warp_cruise = float_after_label_exec(line, "WarpCruise");
        self.warp_emer = float_after_label_exec(line, "WarpEmer");
        self.warp_max = float_after_label_exec(line, "WarpMax");
        self.expect_cost = Some(ExpectCost::Warp);
    }

    fn read_imp_cruise(&mut self, line: &[char])
        ensures
            final(self)@ == imp_cruise_line(old(self)@, line@),
    {
        self.imp_cruise = float_after_label_exec(line, "ImpCruise");
        self.imp_emer = float_after_label_exec(line, "ImpEmer");
        self.imp_max = float_after_label_exec(line, "ImpMax");
        self.expect_cost = Some(ExpectCost::Imp);
    }

    fn read_warp_type(&mut self, line: &[char])
        ensures
            final(self)@ == warp_type_line(old(self)@, line@),
    {
        self.warp_type = string_after_label_exec(line, "Warp Type");
    }

    fn read_costs(&mut self, line: &[char])
        ensures
            final(self)@ == cost_line(old(self)@, line@),
    {
        let c = all_floats_after_label_exec(line, "Cost");
        match self.expect_cost {
            Some(ExpectCost::Warp) => {
                self.warp_cruise_cost = nth_number(&c, 0);
                self.warp_emer_cost = nth_number(&c, 1);
                self.warp_max_cost = nth_number(&c, 2);
            },
            _ => {
                self.imp_cruise_cost = nth_number(&c, 0);
                self.imp_emer_cost = nth_number(&c, 1);
                self.imp_max_cost = nth_number(&c, 2);
            },
        }
        self.expect_cost = None;
    }

    fn read_shield_max(&mut self, line: &[char])
        ensures
            final(self)@ == shield_max_line(old(self)@, line@),
    {
        self.shield_max = float_after_label_exec(line, "ShieldMax");
        self.shield_ratio = float_after_label_exec(line, "ShieldRatio");
    }

    fn read_shield_costs(&mut self, line: &[char])
        ensures
            final(self)@ == shield_cost_line(old(self)@, line@),
    {
        let v = all_floats_after_label_exec(line, "x Cost");
        self.shield_cost_1x = nth_number(&v, 0);
        self.shield_cost_2x = nth_number(&v, 1);
        self.shield_cost_3x = nth_number(&v, 2);
        self.shield_cost_4x = nth_number(&v, 3);
    }

    fn read_defense(&mut self, line: &[char])
        ensures
            final(self)@ == defense_line(old(self)@, line@),
    {
        let v = all_floats_after_label_exec(line, "Defense");
        self.shield_def_1x = nth_number(&v, 0);
        self.shield_def_2x = nth_number(&v, 1);
        self.shield_def_3x = nth_number(&v, 2);
        self.shield_def_4x = nth_number(&v, 3);
    }

    /// Read a line outside the art and the weapon tables. False for a
    /// `Cost` line that does not fit, which the reader refuses.
    pub fn apply_label_exec(&mut self, line: &[char]) -> (ok: bool)
        ensures
            ok == apply_label(old(self)@, line@) is Some,
            ok ==> apply_label(old(self)@, line@) == Some(final(self)@),
    {
        let label = line_label_exec(line);
        let l = label.as_slice();
        if is_label(l, "1x Cost") {
            self.read_shield_costs(line);
        } else if is_label(l, "Bay") {
            self.read_bay(line);
        } else if is_label(l, "Class") {
            self.read_class(line);
        } else if is_label(l, "Cloak") {
            self.read_cloak(line);
        } else if is_label(l, "Cost") {
            if self.expect_cost.is_some() && count_from_exec(line, chars_of("Cost:").as_slice(), 0)
                >= 3 {
                self.read_costs(line);
            } else {
                return false;
            }
        } else if is_label(l, "Defense") {
            self.read_defense(line);
        } else if is_label(l, "Firing") {
            self.read_firing(line);
        } else if is_label(l, "HasLand") {
            self.read_has_land(line);
        } else if is_label(l, "ImpCruise") {
            self.read_imp_cruise(line);
        } else if is_label(l, "LRS") {
            self.read_lrs(line);
        } else if is_label(l, "Main") {
            self.read_main(line);
        } else if is_label(l, "MainMax") {
            self.read_main_max(line);
        } else if is_label(l, "MoveRatio") {
            self.read_move_ratio(line);
        } else if is_label(l, "SensorClass") {
            self.read_sensor_class(line);
        } else if is_label(l, "ShieldMax") {
            self.read_shield_max(line);
        } else if is_label(l, "Structure") {
            self.read_structure(line);
        } else if is_label(l, "Trans") {
            self.read_trans(line);
        } else if is_label(l, "Type") {
            self.read_type(line);
        } else if is_label(l, "Warp Type") {
            self.read_warp_type(line);
        } else if is_label(l, "WarpCruise") {
            self.read_warp_cruise(line);
        }
        true
    }
}

/// Value `k` of a list of numbers, counted from zero; `None` past its end.
pub open spec fn value_at(v: Seq<Seq<char>>, k: int) -> Option<Seq<char>> {
    if 0 <= k < v.len() {
        Some(v[k])
    } else {
        None
    }
}

/// A drive's cost line, read right after the drive's speed line, gives the
/// drive's cruise, emergency and maximum costs as the first, second and
/// third numbers after `Cost:` on the line, in that order; the other
/// drive's costs are left as they were, and no cost line is expected any
/// more.
pub proof fn law_drive_costs_in_order(f: FieldsModel, line: Seq<char>)
    requires
        line_label(line) == "Cost"@,
        f.expect_cost is Some,
        count_from(line, "Cost:"@, 0) >= 3,
    ensures
        apply_label(f, line) is Some,
        f.expect_cost == Some(ExpectCost::Warp) ==> {
            let g = apply_label(f, line)->0;
            let c = all_floats_after_label(line, "Cost"@);
            &&& g.warp_cruise_cost == value_at(c, 0)
            &&& g.warp_emer_cost == value_at(c, 1)
            &&& g.warp_max_cost == value_at(c, 2)
            &&& g.imp_cruise_cost == f.imp_cruise_cost
            &&& g.imp_emer_cost == f.imp_emer_cost
            &&& g.imp_max_cost == f.imp_max_cost
            &&& g.expect_cost is None
        },
        f.expect_cost == Some(ExpectCost::Imp) ==> {
            let g = apply_label(f, line)->0;
            let c = all_floats_after_label(line, "Cost"@);
            &&& g.imp_cruise_cost == value_at(c, 0)
            &&& g.imp_emer_cost == value_at(c, 1)
            &&& g.imp_max_cost == value_at(c, 2)
            &&& g.warp_cruise_cost == f.warp_cruise_cost
            &&& g.warp_emer_cost == f.warp_emer_cost
            &&& g.warp_max_cost == f.warp_max_cost
            &&& g.expect_cost is None
        },
{
    reveal_strlit("Cost");
    reveal_strlit("1x Cost");
    reveal_strlit("Bay");
    reveal_strlit("Class");
    reveal_strlit("Cloak");
    assert("Cost"@ != "1x Cost"@);
    assert("Cost"@ != "Bay"@);
    assert("Cost"@ != "Class"@);
    assert("Cost"@ != "Cloak"@);
}

} // verus!
