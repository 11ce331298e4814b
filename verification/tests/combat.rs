use shipdb::{
    arc_mask, arc_masks, candidate_faces, does_arc_mask_cover_face, intermediate_ready_face, Face,
    FaceSeq, Number, Weapon, WeaponType,
};

#[test]
fn angle_check_correct() {
    let testface: Face = Face::Fore;
    assert_eq!(testface.angle_to(Face::Aft) as f64, 180.0);
    assert_eq!(testface.angle_to(Face::Starboard) as f64, 90.0);
    assert_eq!(testface.angle_to(Face::Port) as f64, 90.0);
    assert_eq!(testface.angle_to(Face::Ventral) as f64, 90.0);
    assert_eq!(testface.angle_to(Face::Dorsal) as f64, 90.0);
    assert_eq!(testface.angle_to(Face::Fore) as f64, 0.0);

    // The face variants cannot be reordered, as we use bitwise arithmetic
    // on the face bits
    assert_eq!(Face::Fore.opposite(), Face::Aft);
    assert_eq!(Face::Aft.opposite(), Face::Fore);
    assert_eq!(Face::Port.opposite(), Face::Starboard);
    assert_eq!(Face::Starboard.opposite(), Face::Port);
    assert_eq!(Face::Dorsal.opposite(), Face::Ventral);
    assert_eq!(Face::Ventral.opposite(), Face::Dorsal);
}

#[test]
fn angles_are_symmetric_for_every_pair() {
    for a in Face::all() {
        for b in Face::all() {
            assert_eq!(a.angle_to(b), b.angle_to(a));
        }
        assert_eq!(a.opposite().opposite(), a);
        assert_eq!(a.angle_to(a.opposite()), 180);
    }
}

#[test]
fn faces_read_their_letters_in_either_case() {
    assert_eq!(Face::from_char('f'), Some(Face::Fore));
    assert_eq!(Face::from_char('V'), Some(Face::Ventral));
    assert_eq!(Face::from_char('x'), None);
    for f in Face::all() {
        assert_eq!(Face::from_char(f.label()), Some(f));
    }
    assert_eq!(Face::Dorsal.priority(), 4);
    assert_eq!(Face::Starboard.bit(), 8);
}

#[test]
fn face_seq_holds_faces_in_push_order() {
    let mut s = FaceSeq::new();
    assert_eq!(s.len(), 0);
    s.push(Face::Port);
    s.push(Face::Fore);
    s.push_unique(Face::Port);
    s.push_unique(Face::Ventral);
    assert_eq!(s.len(), 3);
    assert_eq!(s.get(0), Face::Port);
    assert_eq!(s.get(1), Face::Fore);
    assert_eq!(s.get(2), Face::Ventral);
    assert!(s.contains(Face::Fore));
    assert!(!s.contains(Face::Aft));
}

#[test]
fn face_seq_takes_every_face_once() {
    let mut s = FaceSeq::new();
    for _ in 0..3 {
        for f in Face::all() {
            s.push_unique(f);
        }
    }
    assert_eq!(s.len(), 6);
    for (i, f) in Face::all().iter().enumerate() {
        assert_eq!(s.get(i), *f);
    }
}

#[test]
fn arc_mask_holds_the_bits_of_the_named_faces() {
    assert_eq!(arc_mask("FPD"), 1 | 4 | 16);
    assert_eq!(arc_mask("fapsdv"), 63);
    assert_eq!(arc_mask("FF"), 1);
    assert_eq!(arc_mask(""), 0);
    assert_eq!(arc_mask("xyz"), 0);
    assert!(does_arc_mask_cover_face(arc_mask("AS"), Face::Starboard));
    assert!(!does_arc_mask_cover_face(arc_mask("AS"), Face::Port));
}

fn weapon(arc: &str) -> Weapon {
    let zero: Vec<char> = "0".chars().collect();
    let n = || Number::parse(&zero).unwrap();
    Weapon {
        weapon_type: WeaponType::Beam,
        slot: 1,
        cost: n(),
        range: n(),
        arc: arc.to_string(),
        damage: n(),
        recycle_time: n(),
        dps: n(),
    }
}

#[test]
fn candidate_faces_follow_the_fixed_order() {
    let masks = arc_masks(&[weapon("V"), weapon("AF"), weapon("")]);
    assert_eq!(masks, vec![32, 3, 0]);
    let c = candidate_faces(&masks);
    assert_eq!(c.len(), 3);
    assert_eq!(c.get(0), Face::Fore);
    assert_eq!(c.get(1), Face::Aft);
    assert_eq!(c.get(2), Face::Ventral);
    assert_eq!(candidate_faces(&[]).len(), 0);
}

#[test]
fn intermediate_face_has_the_most_exclusive_ready_weapons() {
    // Facing Fore, turning to Aft: Port and Dorsal are on the way.
    let masks = vec![arc_mask("P"), arc_mask("D"), arc_mask("D"), arc_mask("DA"), arc_mask("F")];
    let cands = candidate_faces(&masks);
    let ready = vec![true, true, true, true, true];
    assert_eq!(
        intermediate_ready_face(Face::Fore, Face::Aft, cands, &masks, &ready),
        Some(Face::Dorsal)
    );
    let ready = vec![true, false, false, true, true];
    assert_eq!(
        intermediate_ready_face(Face::Fore, Face::Aft, cands, &masks, &ready),
        Some(Face::Port)
    );
    let ready = vec![false, false, false, true, true];
    assert_eq!(intermediate_ready_face(Face::Fore, Face::Aft, cands, &masks, &ready), None);
}

#[test]
fn intermediate_face_ties_go_to_the_first_candidate() {
    let masks = vec![arc_mask("S"), arc_mask("V")];
    let cands = candidate_faces(&masks);
    let ready = vec![true, true];
    assert_eq!(
        intermediate_ready_face(Face::Fore, Face::Aft, cands, &masks, &ready),
        Some(Face::Starboard)
    );
}

#[test]
fn slot_order_keeps_equal_slots_in_place() {
    assert_eq!(shipdb::order_by_slot(&[3, 1, 2, 1, 3]), vec![1, 3, 2, 0, 4]);
    assert_eq!(shipdb::order_by_slot(&[]), Vec::<usize>::new());
}
