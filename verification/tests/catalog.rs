use shipdb::{
    add_commas, find_ship, order_ignoring_case, parse_logs, parse_timing, place_upload,
    ship_query_names, sorted_ignoring_case, Ship, TurnTimingModel, Upload,
};

fn strings(v: &[&str]) -> Vec<String> {
    v.iter().map(|s| s.to_string()).collect()
}

#[test]
fn query_names_split_at_commas_and_trim() {
    assert_eq!(ship_query_names("Reflex, runabout ,,  "), strings(&["Reflex", "runabout"]));
    assert_eq!(ship_query_names(""), Vec::<String>::new());
    assert_eq!(ship_query_names("a"), strings(&["a"]));
    assert_eq!(ship_query_names(" x y ,z"), strings(&["x y", "z"]));
}

fn ships(names: &[(&str, i64)]) -> Vec<Ship> {
    let mut text = String::new();
    for (name, dbref) in names {
        text.push_str(&format!("~~~~ {} (Cat) (#{}) ~~~~\nStructure: 1\nBeams: 0 DPS: 0\n", name, dbref));
    }
    let out = parse_logs(text.as_bytes());
    assert_eq!(out.len(), names.len());
    out
}

#[test]
fn find_ship_takes_the_first_case_insensitive_match() {
    let list = ships(&[("UFP Reflex C", 1), ("Reflex B", 2), ("Runabout", 3)]);
    assert_eq!(find_ship(&list, "reflex"), Some(0));
    assert_eq!(find_ship(&list, "REFLEX B"), Some(1));
    assert_eq!(find_ship(&list, "bout"), Some(2));
    assert_eq!(find_ship(&list, "galaxy"), None);
    assert_eq!(find_ship(&list, ""), Some(0));
    assert_eq!(find_ship(&[], "x"), None);
}

#[test]
fn uploads_never_shadow_builtin_ships() {
    assert_eq!(place_upload(&[1, 2], &[7, 9, 7], 2), Upload::Skipped);
    assert_eq!(place_upload(&[1, 2], &[7, 9, 7], 7), Upload::Replaced(0));
    assert_eq!(place_upload(&[1, 2], &[7, 9, 7], 9), Upload::Replaced(1));
    assert_eq!(place_upload(&[1, 2], &[7, 9, 7], 5), Upload::Appended);
    assert_eq!(place_upload(&[], &[], 5), Upload::Appended);
}

#[test]
fn thousands_are_separated_by_commas() {
    assert_eq!(add_commas(0), "0");
    assert_eq!(add_commas(999), "999");
    assert_eq!(add_commas(1000), "1,000");
    assert_eq!(add_commas(359860900), "359,860,900");
    assert_eq!(add_commas(-1234567), "-1,234,567");
    assert_eq!(add_commas(-12), "-12");
    assert_eq!(add_commas(i64::MIN), "-9,223,372,036,854,775,808");
    assert_eq!(add_commas(i64::MAX), "9,223,372,036,854,775,807");
}

#[test]
fn timing_is_anticipatory_only_by_name() {
    assert_eq!(parse_timing("anticipatory"), TurnTimingModel::Anticipatory);
    assert_eq!(parse_timing("AntiCipatory"), TurnTimingModel::Anticipatory);
    assert_eq!(parse_timing("reactive"), TurnTimingModel::Reactive);
    assert_eq!(parse_timing(""), TurnTimingModel::Reactive);
    assert_eq!(parse_timing("anticipatory "), TurnTimingModel::Reactive);
}

#[test]
fn names_sort_by_lowercase_keeping_ties_in_order() {
    let names = strings(&["beta", "Alpha", "alpha", "Gamma", "ALPHA", "b"]);
    assert_eq!(
        sorted_ignoring_case(&names),
        strings(&["Alpha", "alpha", "ALPHA", "b", "beta", "Gamma"])
    );
    assert_eq!(order_ignoring_case(&names), vec![1, 2, 4, 5, 0, 3]);
    assert_eq!(sorted_ignoring_case(&[]), Vec::<String>::new());
}

#[test]
fn name_order_matches_a_stable_sort_by_lowercase() {
    let names = strings(&["Zed", "émile", "Émile", "eve", "Éve", "a b", "a", "A", "z"]);
    let mut expected = names.clone();
    expected.sort_by_key(|n| n.to_lowercase());
    assert_eq!(sorted_ignoring_case(&names), expected);
}

fn rgb_as_std_reads_it(bg: &str) -> Option<(u8, u8, u8)> {
    let rgb: Vec<u8> = bg
        .trim_start_matches("rgba(")
        .trim_start_matches("rgb(")
        .trim_end_matches(')')
        .split(',')
        .filter_map(|p| p.trim().parse().ok())
        .collect();
    match rgb.as_slice() {
        [r, g, b, ..] => Some((*r, *g, *b)),
        _ => None,
    }
}

#[test]
fn css_colours_read_their_first_three_bytes() {
    assert_eq!(shipdb::parse_rgb("rgb(29, 29, 32)"), Some((29, 29, 32)));
    assert_eq!(shipdb::parse_rgb("rgba(1,2,3,0.5)"), Some((1, 2, 3)));
    assert_eq!(shipdb::parse_rgb("rgb(300, 1, 2, 3)"), Some((1, 2, 3)));
    assert_eq!(shipdb::parse_rgb("#ffffff"), None);
    assert_eq!(shipdb::parse_rgb("rgb(1, 2)"), None);
    for bg in [
        "rgb(29, 29, 32)", "rgba(1,2,3,0.5)", "rgb(+5, 07, 8))", "rgba(rgba(1,2,3", "rgb(-1,2,3,4)",
        "", ",,,", "1,2,3", " 255 ,0,\t9 ", "rgb(256,255,254,253)", "rgb(1,2,3)))", "rgb( 1 ,2 ,3 )",
    ] {
        assert_eq!(shipdb::parse_rgb(bg), rgb_as_std_reads_it(bg), "{:?}", bg);
    }
}

#[test]
fn weapon_rows_go_to_the_first_ship_with_their_reference() {
    let ships = [10i64, 20, 30, 10];
    let rows = [20i64, 10, 20, 40, 10];
    let r = shipdb::weapon_rows_of_ships(&ships, &rows);
    assert_eq!(r, vec![vec![1, 4], vec![0, 2], vec![], vec![]]);
    assert_eq!(shipdb::weapon_rows_of_ships(&[], &rows), Vec::<Vec<usize>>::new());
    assert_eq!(shipdb::weapon_rows_of_ships(&[5], &[]), vec![Vec::<usize>::new()]);
}

#[test]
fn removing_the_commas_gives_the_digits_back() {
    for n in [0i64, 7, 1000, 65536, 359860900, i64::MAX] {
        assert_eq!(add_commas(n).replace(',', ""), n.to_string());
    }
    assert_eq!(add_commas(-42000).replace(',', ""), "-42000");
}
