use shipdb::{is_transwarp, parse_logs, Number, TurnRng, WeaponType};

#[test]
fn db_spelling_round_trips() {
    assert_eq!(WeaponType::from_db("beam"), WeaponType::Beam);
    assert_eq!(WeaponType::from_db("missile"), WeaponType::Missile);
    assert_eq!(WeaponType::from_db("torpedo"), WeaponType::Other("torpedo".to_string()));
    for s in ["beam", "missile", "torpedo", ""] {
        assert_eq!(WeaponType::from_db(s).to_db(), s);
    }
    assert_eq!(WeaponType::Beam.to_db(), "beam");
    assert_eq!(WeaponType::Other("x".to_string()).to_db(), "x");
}

#[test]
fn rng_follows_splitmix64() {
    let mut r = TurnRng::new(0);
    assert_eq!(r.next_u64(), 0xE220A8397B1DCDAF);
    assert_eq!(r.next_u64(), 0x6E789E6AA1B965F4);
    let mut a = TurnRng::new(42);
    let mut b = TurnRng::new(42);
    for _ in 0..8 {
        assert_eq!(a.next_u64(), b.next_u64());
    }
}

#[test]
fn uniform_bits_are_the_top_53_bits() {
    let mut a = TurnRng::new(7);
    let mut b = TurnRng::new(7);
    for _ in 0..16 {
        let bits = a.next_uniform_bits();
        assert_eq!(bits, b.next_u64() >> 11);
        assert!(bits < (1u64 << 53));
    }
}

fn chars(s: &str) -> Vec<char> {
    s.chars().collect()
}

#[test]
fn numbers_are_float_literals() {
    for ok in ["7", "0.50", "1.", ".5", "-3", "+2e10", "1E-3", "inf", "-Infinity", "NaN"] {
        let n = Number::parse(&chars(ok)).unwrap();
        assert_eq!(n.as_str(), ok);
        assert!(n.as_str().parse::<f64>().is_ok());
    }
    for bad in ["", ".", "x", "1.2.3", "--1", "1e", "e5", "1-2", "infinit"] {
        assert!(Number::parse(&chars(bad)).is_none(), "{}", bad);
        assert!(bad.parse::<f64>().is_err());
    }
    assert_eq!(Number::zero().as_str(), "0");
}

const SHEET: &str = "~~~~ Hauler (Freighter) (#77) ~~~~\n\
  Type: Base    Cost: 5\n\
  Structure: 10\n\
  WarpCruise: 1  WarpEmer: 2  WarpMax: 3\n\
  Warp Type: TransWarp Mk2\n\
  Beams: 1 DPS: 1\n\
  Cost: 1\n\
  Arcs: F\n\
  DPS: 1\n";

#[test]
fn ship_queries() {
    let ships = parse_logs(SHEET.as_bytes());
    assert_eq!(ships.len(), 1);
    let s = &ships[0];
    assert!(s.is_base());
    assert!(is_transwarp(s));
    assert_eq!(s.weapons_of(&WeaponType::Beam).len(), 1);
    assert_eq!(s.weapons_of(&WeaponType::Missile).len(), 0);
    assert!(s.weapons[0].is_forward());
    assert!(s.warp_cruise_cost.is_none());
}

#[test]
fn rng_state_steps_by_the_golden_gamma() {
    const GAMMA: u64 = 0x9E3779B97F4A7C15;
    for seed in [0u64, 1, 42, u64::MAX] {
        let mut a = TurnRng::new(seed);
        a.next_u64();
        let mut b = TurnRng::new(seed.wrapping_add(GAMMA));
        assert_eq!(a.next_u64(), b.next_u64());
    }
}

#[test]
fn equal_seeds_give_equal_draws_and_states() {
    let mut a = TurnRng::new(0x1234_5678);
    let mut b = TurnRng::new(0x1234_5678);
    let xs: Vec<u64> = (0..32).map(|_| a.next_u64()).collect();
    let ys: Vec<u64> = (0..32).map(|_| b.next_u64()).collect();
    assert_eq!(xs, ys);
    assert_eq!(a.next_u64(), b.next_u64());
    let mut c = TurnRng::new(0x1234_5679);
    assert_ne!(c.next_u64(), xs[0]);
}
