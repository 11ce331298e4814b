use shipdb::{get_lines_memchr, parse_logs, try_parse_logs, Number, Ship, WeaponType};

const REFLEX: &str = "\
~~~~~~~~~~~~ UFP Reflex C (Reflex) (#5367) ~~~~~~~~~~~~
       Class: UFP Reflex C                      Crew: 7
 SensorClass: Reflex                           Quota: 7
        Type: Ship                              Cost: 359860900
~~~~~~~~~~~~~~~~~~~~~~~~~~~~~~~~~~~~~~~~~~~~~~~~~~~~~~~~~~~~~
  Structure: 737               Repair: 737                 Mass: 3200000
        Bay: 30000              Cargo: 25
~~~~~~~~~~~~~~~~~~~~~~~~~~~~~~~~~~~~~~~~~~~~~~~~~~~~~~~~~~~~~
    HasLand: Yes      HasDock: No       CanLand: No       CanDock: Yes
~~~~~~~~~~~~~~~~~~~~~~~~~~~~~~~~~~~~~~~~~~~~~~~~~~~~~~~~~~~~~
     Firing: 100              FuelEff: 100              Stealth: 100
      Cloak: 100              Sensors: 100               AuxMax: 100
    MainMax: 100                Armor: 100              FuelMax: 1000
~~~~~~~~~~~~~~~~~~~~~~~~~~~~~~~~~~~~~~~~~~~~~~~~~~~~~~~~~~~~~
        LRS: Yes                  SRS: Yes                   EW: Yes
      Trans: Yes              Tractor: Yes                Cloak: No
~~~~~~~~~~~~~~~~~~~~~~~~~~~~~~~~~~~~~~~~~~~~~~~~~~~~~~~~~~~~~
       Main: 498                  Aux: 29                  Batt: 29
  MoveRatio: 8
~~~~~~~~~~~~~~~~~~~~~~~~~~~~~~~~~~~~~~~~~~~~~~~~~~~~~~~~~~~~~
 WarpCruise: 14.1            WarpEmer: 16.2             WarpMax: 18.3
       Cost: 159.048             Cost: 209.952             Cost: 267.912
  Warp Type: Standard
~~~~~~~~~~~~~~~~~~~~~~~~~~~~~~~~~~~~~~~~~~~~~~~~~~~~~~~~~~~~~
  ImpCruise: 0.25             ImpEmer: 0.50              ImpMax: 0.75
       Cost: 9.6                 Cost: 14.4                Cost: 28.8
~~~~~~~~~~~~~~~~~~~~~~~~~~~~~~~~~~~~~~~~~~~~~~~~~~~~~~~~~~~~~
  ShieldMax: 24           ShieldRatio: 4
 1x Cost: 6          2x Cost: 12         3x Cost: 18         4x Cost: 24
 Defense: 95.8333    Defense: 97.2222    Defense: 97.619     Defense: 97.7778
~~~~~~~~~~~~~~~~~~~~~~~~~~~~~~~~~~~~~~~~~~~~~~~~~~~~~~~~~~~~~
       Beams: 14                                 DPS: 192.9
        Cost: 1695  1695  341   341   341   341   341   341   341   341
       Range: 5000  5000  4800  4800  4800  4800  4800  4800  4800  4800
        Arcs: F     F     FD    FV    FPD   FPV   FSD   FSV   APD   APV
      Damage: 1695  1695  341   341   341   341   341   341   341   341
        Time: 60.0  60.0  30.0  30.0  30.0  30.0  30.0  30.0  30.0  30.0
         DPS: 28.2  28.2  11.4  11.4  11.4  11.4  11.4  11.4  11.4  11.4
        Cost: 341   341   341   341
       Range: 4800  4800  4800  4800
        Arcs: ASD   ASV   AD    AV
      Damage: 341   341   341   341
        Time: 30.0  30.0  30.0  30.0
         DPS: 11.4  11.4  11.4  11.4
~~~~~~~~~~~~~~~~~~~~~~~~~~~~~~~~~~~~~~~~~~~~~~~~~~~~~~~~~~~~~
    Missiles: 12                                 DPS: 160.0
        Cost: 1     1     1     1     1     1     1     1     1     1
       Range: 3200  3200  3200  3200  3200  3200  3200  3200  3200  3200
        Arcs: F     F     F     F     F     F     A     A     A     A
      Damage: 1200  1200  1200  1200  1200  1200  1200  1200  1200  1200
        Time: 90.0  90.0  90.0  90.0  90.0  90.0  90.0  90.0  90.0  90.0
         DPS: 13.3  13.3  13.3  13.3  13.3  13.3  13.3  13.3  13.3  13.3
        Cost: 1     1
       Range: 3200  3200
        Arcs: A     A
      Damage: 1200  1200
        Time: 90.0  90.0
         DPS: 13.3  13.3
~~~~~~~~~~~~~~~~~~~~~~~~~~~~~~~~~~~~~~~~~~~~~~~~~~~~~~~~~~~~~
";

fn num(n: &Number) -> f64 {
    n.as_str().parse::<f64>().unwrap()
}

fn only_ship(text: &str) -> Ship {
    let mut ships = parse_logs(text.as_bytes());
    assert_eq!(ships.len(), 1);
    ships.remove(0)
}

#[test]
fn parses_specs_correctly() {
    let ships = parse_logs(REFLEX.as_bytes());
    assert_eq!(ships.len(), 1);
    let s = &ships[0];
    assert_eq!(s.dbref, 5367);
    assert_eq!(s.name, "UFP Reflex C");
    assert_eq!(s.category.as_deref(), Some("Reflex"));
    assert_eq!(num(&s.crew), 7.0);
    assert_eq!(num(&s.structure), 737.0);
    assert_eq!(num(&s.shield_max), 24.0);
    assert_eq!(num(&s.move_ratio), 8.0);
    assert_eq!(s.beams_count, 14);
    assert_eq!(s.missiles_count, Some(12));
    assert_eq!(s.has_cloak, false);
    assert_eq!(s.warp_type.as_deref(), Some("Standard"));

    let beams: Vec<_> = s.weapons.iter().filter(|w| matches!(w.weapon_type, WeaponType::Beam)).collect();
    let missiles: Vec<_> = s.weapons.iter().filter(|w| matches!(w.weapon_type, WeaponType::Missile)).collect();
    assert_eq!(beams.len(), 14);
    assert_eq!(missiles.len(), 12);
    assert_eq!(num(&beams[0].cost), 1695.0);
    assert_eq!(beams[0].arc, "F");
    assert_eq!(beams[2].arc, "FD");
    assert_eq!(missiles[6].arc, "A");
    assert_eq!(num(&missiles[0].damage), 1200.0);
}

#[test]
fn reflex_sheet_fields_read_in_full() {
    let s = only_ship(REFLEX);
    assert_eq!(s.class, "UFP Reflex C");
    assert_eq!(s.sensor_class, "Reflex");
    assert_eq!(s.ship_type, "Ship");
    assert_eq!(s.quota.as_str(), "7");
    assert_eq!(s.cost.as_str(), "359860900");
    assert_eq!(s.mass.as_str(), "3200000");
    assert_eq!(s.bay.as_str(), "30000");
    assert_eq!(s.cargo.as_str(), "25");
    assert!(s.has_land && !s.has_dock && !s.can_land && s.can_dock);
    assert_eq!(s.cloak_eff.as_str(), "100");
    assert_eq!(s.fuel_max.as_str(), "1000");
    assert!(s.lrs && s.srs && s.ew && s.trans && s.tractor);
    assert!(s.cloak.is_none());
    assert_eq!(s.main.as_str(), "498");
    assert_eq!(s.warp_cruise.as_ref().map(|n| n.as_str()), Some("14.1"));
    assert_eq!(s.warp_max_cost.as_ref().map(|n| n.as_str()), Some("267.912"));
    assert_eq!(s.imp_emer.as_str(), "0.50");
    assert_eq!(s.imp_max_cost.as_str(), "28.8");
    assert_eq!(s.shield_ratio.as_str(), "4");
    assert_eq!(s.shield_cost_3x.as_str(), "18");
    assert_eq!(s.shield_def_4x.as_str(), "97.7778");
    assert_eq!(s.beams_dps.as_str(), "192.9");
    assert_eq!(s.missiles_dps.as_ref().map(|n| n.as_str()), Some("160.0"));
    assert_eq!(s.source_log.as_deref(), Some("upload"));
    assert!(s.art.is_none());
    assert!(!s.crew_tuned);
}

#[test]
fn weapons_are_numbered_per_table_in_sheet_order() {
    let s = only_ship(REFLEX);
    assert_eq!(s.weapons.len(), 26);
    for (i, w) in s.weapons.iter().take(14).enumerate() {
        assert_eq!(w.slot, i as i64 + 1);
    }
    for (i, w) in s.weapons.iter().skip(14).enumerate() {
        assert_eq!(w.slot, i as i64 + 1);
    }
    assert_eq!(s.weapons[13].arc, "AV");
    assert_eq!(num(&s.weapons[13].recycle_time), 30.0);
    assert_eq!(num(&s.weapons[13].dps), 11.4);
    assert_eq!(s.weapons[25].arc, "A");
}

const SMALL: &str = "\
~~~~~~~~ Runabout (Shuttle) (#12) ~~~~~~~~
   /\\
  /__\\   
       Class: Runabout                      Crew: 2 (tuned)
  Structure: 20
       Beams: 2                                 DPS: 3.0
        Cost: 10    x
       Range: 100   100
        Arcs: F     A
      Damage: 5     6
        Time: 2.0   3.0
         DPS: 2.5   2.0
";

#[test]
fn art_is_kept_and_missing_numbers_read_as_zero() {
    let s = only_ship(SMALL);
    assert_eq!(s.art.as_deref(), Some("   /\\\n  /__\\"));
    assert!(s.crew_tuned);
    assert_eq!(s.weapons.len(), 2);
    assert_eq!(s.weapons[1].cost.as_str(), "0");
    assert_eq!(s.weapons[1].arc, "A");
    assert_eq!(s.missiles_count, None);
    assert_eq!(s.armor.as_str(), "0");
    assert_eq!(s.class, "Runabout");
}

#[test]
fn sheet_without_category_is_dropped() {
    let text = SMALL.replace("Runabout (Shuttle) (#12)", "Runabout (#12)");
    assert_eq!(parse_logs(text.as_bytes()).len(), 0);
}

#[test]
fn two_sheets_give_two_ships_in_order() {
    let text = format!("{}{}", SMALL, REFLEX);
    let ships = parse_logs(text.as_bytes());
    assert_eq!(ships.len(), 2);
    assert_eq!(ships[0].dbref, 12);
    assert_eq!(ships[1].dbref, 5367);
}

#[test]
fn carriage_returns_end_lines_too() {
    let text = REFLEX.replace('\n', "\r\n");
    let ships = parse_logs(text.as_bytes());
    assert_eq!(ships.len(), 1);
    assert_eq!(ships[0].weapons.len(), 26);
}

#[test]
fn cost_line_outside_drive_costs_is_refused() {
    let text = "~~~~ X (Y) (#1) ~~~~\nStructure: 5\nCost: 1  Cost: 2  Cost: 3\n";
    assert!(try_parse_logs(text.as_bytes()).is_none());
}

#[test]
fn arcs_column_inside_a_char_is_refused() {
    let text = "~~~~ X (Y) (#1) ~~~~\nStructure: 5\nBeams: 1 DPS: 1\nArcs: FFFFF\u{c5}\n";
    assert!(try_parse_logs(text.as_bytes()).is_none());
}

#[test]
fn lines_split_at_cr_lf_and_crlf() {
    let lines = get_lines_memchr(b"a\r\nb\rc\n\nd");
    assert_eq!(lines, vec!["a", "b", "c", "", "d"]);
}

#[test]
fn a_line_that_is_not_utf8_reads_as_empty() {
    let lines = get_lines_memchr(b"ok\n\xff\xfe\nend\n");
    assert_eq!(lines, vec!["ok", "", "end"]);
}

#[test]
fn a_log_without_sheets_gives_no_ships() {
    let text = "You say, \"Cost: 5\"\nStructure: 10\n~~~ not a title ~~~\n";
    assert_eq!(parse_logs(text.as_bytes()).len(), 0);
}

#[test]
fn chatter_before_the_first_sheet_is_ignored() {
    let noise = "Someone pages: hi\n  Beams: 3 DPS: 1\n~~~~~~~~~~~~\nArcs: \u{c5}\u{c5}\u{c5}\u{c5}\n";
    let with_noise = format!("{}{}", noise, REFLEX);
    let a = parse_logs(REFLEX.as_bytes());
    let b = parse_logs(with_noise.as_bytes());
    assert_eq!(a.len(), b.len());
    assert_eq!(a[0].weapons.len(), b[0].weapons.len());
    assert_eq!(a[0].name, b[0].name);
}

fn cloak_after(lines: &str) -> (bool, Option<String>) {
    let text = format!("~~~~ X (Y) (#1) ~~~~\nStructure: 5\nBeams: 0 DPS: 0\n{}", lines);
    let s = only_ship(&text);
    (s.has_cloak, s.cloak.map(|n| n.as_str().to_string()))
}

#[test]
fn cloak_no_must_be_the_whole_word() {
    assert_eq!(cloak_after("Trans: Yes  Cloak: 50\n"), (true, Some("50".to_string())));
    assert_eq!(cloak_after("Trans: Yes  Cloak: 50\nTrans: Yes  Cloak: No\n"), (false, None));
    assert_eq!(
        cloak_after("Trans: Yes  Cloak: 50\nTrans: Yes  Cloak: Nope\n"),
        (true, Some("50".to_string()))
    );
    assert_eq!(cloak_after("Trans: Yes  Cloak: 50\nTrans: Yes  Cloak: No.\n"), (false, None));
}

#[test]
fn logs_read_one_after_the_other_give_the_ships_of_each() {
    let joined = format!("{}{}", REFLEX, SMALL);
    let a = parse_logs(REFLEX.as_bytes());
    let b = parse_logs(SMALL.as_bytes());
    let ab = parse_logs(joined.as_bytes());
    assert_eq!(ab.len(), a.len() + b.len());
    assert_eq!(ab[0].dbref, a[0].dbref);
    assert_eq!(ab[0].weapons.len(), a[0].weapons.len());
    assert_eq!(ab[1].dbref, b[0].dbref);
    assert_eq!(ab[1].art, b[0].art);
}

#[test]
fn a_value_is_read_after_the_first_label_only() {
    let text = "~~~~ X (Y) (#1) ~~~~\nStructure: none   Structure: 737\nBeams: 0 DPS: 0\n";
    assert_eq!(parse_logs(text.as_bytes()).len(), 0);
    let text = "~~~~ X (Y) (#1) ~~~~\nStructure: 5\nBeams: 0 DPS: 0\nCloak: No   Cloak: 5   Sensors: 7\n";
    let s = only_ship(text);
    assert_eq!(s.cloak_eff.as_str(), "0");
    assert_eq!(s.sensors.as_str(), "7");
}

#[test]
fn weapons_of_a_kind_come_in_slot_order() {
    let mut s = only_ship(REFLEX);
    s.weapons.reverse();
    let beams = s.weapons_of(&WeaponType::Beam);
    let slots: Vec<i64> = beams.iter().map(|w| w.slot).collect();
    assert_eq!(slots, (1..=14).collect::<Vec<i64>>());
    assert_eq!(beams[0].arc, "F");
    assert_eq!(beams[13].arc, "AV");
    let missiles = s.weapons_of(&WeaponType::Missile);
    assert_eq!(missiles.len(), 12);
    assert_eq!(missiles[0].slot, 1);
}

#[test]
fn lines_agree_with_str_lines_without_lone_carriage_returns() {
    for text in [
        "", "a", "a\n", "a\r\n", "\n", "\n\n", "a\nb", "a\r\nb\r\n", "x\r\n\r\ny", "é\nü\r\n", REFLEX,
    ] {
        let ours = get_lines_memchr(text.as_bytes());
        let std: Vec<String> = text.lines().map(str::to_string).collect();
        assert_eq!(ours, std, "{:?}", text);
    }
}

#[test]
fn accepted_logs_read_together_give_the_ships_of_each() {
    let first = "chatter\n";
    let joined = format!("{}{}", first, SMALL);
    assert_eq!(parse_logs(first.as_bytes()).len(), 0);
    assert_eq!(parse_logs(joined.as_bytes()).len(), parse_logs(SMALL.as_bytes()).len());
}

#[test]
fn art_drops_blank_lines_around_it_and_keeps_those_inside() {
    let text = SMALL.replacen("   /\\\n", "\n   /\\\n\n", 1).replacen("  /__\\   \n", "  /__\\   \n   \n", 1);
    let s = only_ship(&text);
    assert_eq!(s.art.as_deref(), Some("   /\\\n\n  /__\\"));
    assert_eq!(s.source_log.as_deref(), Some("upload"));
}

#[test]
fn art_of_blank_lines_only_is_none() {
    let text = SMALL.replacen("   /\\\n  /__\\   \n", "\n   \n", 1);
    let s = only_ship(&text);
    assert!(s.art.is_none());
    assert_eq!(s.class, "Runabout");
    assert_eq!(s.armor.as_str(), "0");
    assert!(!s.has_land);
}
