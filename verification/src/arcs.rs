//! Weapon arcs as sets of faces, one bit per face.
//!
//! An arc string such as `FPD` names the faces a weapon can fire through.
//! Its mask holds the bit of each face it names; the faces worth turning to
//! are those some weapon covers.

use vstd::prelude::*;
use crate::face::{Face, angle_between, face_bit, face_of_char, is_face_bit};
use crate::face_seq::FaceSeq;
use crate::text::chars_of;
use crate::weapon::{Weapon, WeaponModel};

verus! {

/// The bit a char adds to an arc mask: its face's bit, or none.
pub open spec fn char_bit(c: char) -> u8 {
    match face_of_char(c) {
        Some(f) => face_bit(f),
        None => 0,
    }
}

/// The mask of an arc string: the OR of the bits of the faces it names.
pub open spec fn arc_bits(s: Seq<char>) -> u8
    decreases s.len(),
{
    if s.len() == 0 {
        0
    } else {
        arc_bits(s.drop_last()) | char_bit(s.last())
    }
}

/// Whether a mask holds a face's bit.
pub open spec fn mask_covers(m: u8, f: Face) -> bool {
    m & face_bit(f) != 0
}

/// Whether an arc string names a face, by its letter in either case.
pub open spec fn names_face(s: Seq<char>, f: Face) -> bool {
    exists|i: int| 0 <= i < s.len() && face_of_char(#[trigger] s[i]) == Some(f)
}

/// The OR of a list of masks.
pub open spec fn union_bits(v: Seq<u8>) -> u8
    decreases v.len(),
{
    if v.len() == 0 {
        0
    } else {
        union_bits(v.drop_last()) | v.last()
    }
}

/// The faces in their fixed order.
pub open spec fn face_order() -> Seq<Face> {
    seq![Face::Fore, Face::Aft, Face::Port, Face::Starboard, Face::Dorsal, Face::Ventral]
}

/// The faces some weapon covers, in the fixed face order.
pub open spec fn candidate_faces_of(arcs: Seq<u8>) -> Seq<Face> {
    face_order().filter(|f: Face| mask_covers(union_bits(arcs), f))
}

proof fn lemma_or_bit(a: u8, b: u8, c: u8)
    ensures
        ((a | b) & c != 0) == ((a & c != 0) || (b & c != 0)),
{
    assert(((a | b) & c != 0) == ((a & c != 0) || (b & c != 0))) by (bit_vector);
}

proof fn lemma_face_bits(a: u8, b: u8)
    requires
        is_face_bit(a),
        is_face_bit(b),
    ensures
        (a & b != 0) == (a == b),
{
    assert((a & b != 0) == (a == b)) by (bit_vector)
        requires
            is_face_bit(a),
            is_face_bit(b),
    ;
}

proof fn lemma_face_bit_injective(f: Face, g: Face)
    ensures
        (face_bit(f) & face_bit(g) != 0) == (f == g),
{
    lemma_face_bits(face_bit(f), face_bit(g));
}

proof fn lemma_char_bit_covers(c: char, f: Face)
    ensures
        mask_covers(char_bit(c), f) == (face_of_char(c) == Some(f)),
{
    match face_of_char(c) {
        Some(g) => lemma_face_bit_injective(g, f),
        None => {
            assert(0u8 & face_bit(f) == 0) by (bit_vector);
        },
    }
}

/// An arc's mask covers a face exactly when the arc string names it.
pub proof fn law_arc_mask_names_faces(s: Seq<char>, f: Face)
    ensures
        mask_covers(arc_bits(s), f) == names_face(s, f),
    decreases s.len(),
{
    if s.len() == 0 {
        assert(0u8 & face_bit(f) == 0) by (bit_vector);
    } else {
        let p = s.drop_last();
        law_arc_mask_names_faces(p, f);
        lemma_or_bit(arc_bits(p), char_bit(s.last()), face_bit(f));
        lemma_char_bit_covers(s.last(), f);
        if names_face(p, f) {
            let i = choose|i: int| 0 <= i < p.len() && face_of_char(#[trigger] p[i]) == Some(f);
            assert(s[i] == p[i]);
        }
        if names_face(s, f) && !names_face(p, f) {
            let i = choose|i: int| 0 <= i < s.len() && face_of_char(#[trigger] s[i]) == Some(f);
            if i < s.len() - 1 {
                assert(p[i] == s[i]);
            }
        }
        if face_of_char(s.last()) == Some(f) {
            assert(face_of_char(s[s.len() - 1]) == Some(f));
        }
    }
}

/// The union of masks covers a face exactly when one of the masks does.
pub proof fn law_union_covers(v: Seq<u8>, f: Face)
    ensures
        mask_covers(union_bits(v), f) == exists|i: int| 0 <= i < v.len() && mask_covers(#[trigger] v[i], f),
    decreases v.len(),
{
    if v.len() == 0 {
        assert(0u8 & face_bit(f) == 0) by (bit_vector);
    } else {
        let p = v.drop_last();
        law_union_covers(p, f);
        lemma_or_bit(union_bits(p), v.last(), face_bit(f));
        if exists|i: int| 0 <= i < p.len() && mask_covers(#[trigger] p[i], f) {
            let i = choose|i: int| 0 <= i < p.len() && mask_covers(#[trigger] p[i], f);
            assert(v[i] == p[i]);
        }
        if exists|i: int| 0 <= i < v.len() && mask_covers(#[trigger] v[i], f) {
            let i = choose|i: int| 0 <= i < v.len() && mask_covers(#[trigger] v[i], f);
            if i < v.len() - 1 {
                assert(p[i] == v[i]);
            }
        }
        assert(v[v.len() - 1] == v.last());
    }
}

/// The bit set of the faces an arc string names.
pub fn arc_mask(arc: &str) -> (m: u8)
    ensures
        m == arc_bits(arc@),
        forall|f: Face| #[trigger] mask_covers(m, f) == names_face(arc@, f),
{
    let cs = chars_of(arc);
    let mut m: u8 = 0;
    let mut k: usize = 0;
    while k < cs.len()
        invariant
            cs@ == arc@,
            k <= cs@.len(),
            m == arc_bits(cs@.take(k as int)),
        decreases cs@.len() - k,
    {
        let ghost t = cs@.take(k + 1);
        assert(t.drop_last() =~= cs@.take(k as int));
        assert(t.last() == cs@[k as int]);
        match Face::from_char(cs[k]) {
            Some(f) => {
                m = m | f.bit();
            },
            None => {
                assert(m | 0u8 == m) by (bit_vector);
            },
        }
        k = k + 1;
    }
    assert(cs@.take(cs@.len() as int) =~= cs@);
    assert forall|f: Face| #[trigger] mask_covers(m, f) == names_face(arc@, f) by {
        law_arc_mask_names_faces(arc@, f);
    }
    m
}

/// The arc mask of each weapon, in weapon order.
pub fn arc_masks(weapons: &[Weapon]) -> (r: Vec<u8>)
    ensures
        r@.len() == weapons@.len(),
        forall|i: int| 0 <= i < weapons@.len() ==> #[trigger] r@[i] == arc_bits(weapons@[i]@.arc),
{
    let mut r: Vec<u8> = Vec::new();
    let mut k: usize = 0;
    while k < weapons.len()
        invariant
            k <= weapons@.len(),
            r@.len() == k,
            forall|i: int| 0 <= i < k ==> #[trigger] r@[i] == arc_bits(weapons@[i]@.arc),
        decreases weapons@.len() - k,
    {
        r.push(arc_mask(weapons[k].arc.as_str()));
        k = k + 1;
    }
    r
}

/// Whether an arc mask covers a face.
pub fn does_arc_mask_cover_face(arc: u8, face: Face) -> (r: bool)
    ensures
        r == mask_covers(arc, face),
{
    arc & face.bit() != 0
}

/// The distinct faces covered by some weapon's arc, in the fixed face
/// order.
pub fn candidate_faces(weapon_arcs: &[u8]) -> (r: FaceSeq)
    ensures
        r@ == candidate_faces_of(weapon_arcs@),
{
    let mut union: u8 = 0;
    let mut k: usize = 0;
    while k < weapon_arcs.len()
        invariant
            k <= weapon_arcs@.len(),
            union == union_bits(weapon_arcs@.take(k as int)),
        decreases weapon_arcs@.len() - k,
    {
        let ghost t = weapon_arcs@.take(k + 1);
        assert(t.drop_last() =~= weapon_arcs@.take(k as int));
        union = union | weapon_arcs[k];
        k = k + 1;
    }
    assert(weapon_arcs@.take(weapon_arcs@.len() as int) =~= weapon_arcs@);
    let all = Face::all();
    let mut faces = FaceSeq::new();
    let mut j: usize = 0;
    let ghost pick = |f: Face| mask_covers(union, f);
    while j < 6
        invariant
            j <= 6,
            pick == (|f: Face| mask_covers(union, f)),
            forall|i: int| 0 <= i < 6 ==> #[trigger] all@[i] == crate::face::face_at(i),
            faces@ == face_order().take(j as int).filter(pick),
            faces@.len() <= j,
        decreases 6 - j,
    {
        let f = all[j];
        let ghost t = face_order().take(j + 1);
        proof {
            reveal(Seq::filter);
            assert(t.drop_last() =~= face_order().take(j as int));
            assert(t.last() == f);
            face_order().take(j as int).lemma_filter_len(pick);
        }
        if does_arc_mask_cover_face(union, f) {
            faces.push(f);
        }
        j = j + 1;
    }
    assert(face_order().take(6) =~= face_order());
    faces
}

/// The number of ready weapons among the first `n` whose arc covers `m`
/// but not `target`.
pub open spec fn exclusive_ready(arcs: Seq<u8>, ready: Seq<bool>, m: Face, target: Face, n: int) -> nat
    decreases n,
{
    if n <= 0 {
        0
    } else {
        exclusive_ready(arcs, ready, m, target, n - 1) + if mask_covers(arcs[n - 1], m)
            && !mask_covers(arcs[n - 1], target) && ready[n - 1] {
            1nat
        } else {
            0nat
        }
    }
}

/// Among the candidate faces at a right angle to both the current face and
/// the target, the first with the most ready weapons that only it covers;
/// with that number. `None` when no such face has any.
pub open spec fn pick_intermediate(
    cands: Seq<Face>,
    orientation: Face,
    target: Face,
    arcs: Seq<u8>,
    ready: Seq<bool>,
) -> Option<(nat, Face)>
    decreases cands.len(),
{
    if cands.len() == 0 {
        None
    } else {
        let prev = pick_intermediate(cands.drop_last(), orientation, target, arcs, ready);
        let m = cands.last();
        if angle_between(orientation, m) != 90 || angle_between(m, target) != 90 {
            prev
        } else {
            let e = exclusive_ready(arcs, ready, m, target, arcs.len() as int);
            if e > 0 && (prev is None || e > prev.unwrap().0) {
                Some((e, m))
            } else {
                prev
            }
        }
    }
}

/// A face at a right angle to both the current face and the target.
pub open spec fn on_the_way(orientation: Face, target: Face, m: Face) -> bool {
    angle_between(orientation, m) == 90 && angle_between(m, target) == 90
}

/// The number of ready weapons only face `m`, not the target, covers.
pub open spec fn exclusive_count(arcs: Seq<u8>, ready: Seq<bool>, m: Face, target: Face) -> nat {
    exclusive_ready(arcs, ready, m, target, arcs.len() as int)
}

/// Candidate `i` is a face on the way with `e > 0` exclusive ready
/// weapons, no face on the way has more, and every face on the way before
/// it has fewer.
pub open spec fn best_at(
    cands: Seq<Face>,
    orientation: Face,
    target: Face,
    arcs: Seq<u8>,
    ready: Seq<bool>,
    e: nat,
    i: int,
) -> bool {
    &&& 0 <= i < cands.len()
    &&& on_the_way(orientation, target, cands[i])
    &&& e == exclusive_count(arcs, ready, cands[i], target)
    &&& e > 0
    &&& forall|j: int|
        0 <= j < cands.len() && on_the_way(orientation, target, #[trigger] cands[j])
            ==> exclusive_count(arcs, ready, cands[j], target) <= e
    &&& forall|j: int|
        0 <= j < i && on_the_way(orientation, target, #[trigger] cands[j]) ==> exclusive_count(
            arcs,
            ready,
            cands[j],
            target,
        ) < e
}

/// The intermediate face is a face on the way with the most ready weapons
/// that only it covers, the first one on ties; there is none exactly when
/// every face on the way has no such weapon.
pub proof fn law_intermediate_face_is_the_best(
    cands: Seq<Face>,
    orientation: Face,
    target: Face,
    arcs: Seq<u8>,
    ready: Seq<bool>,
)
    ensures
        pick_intermediate(cands, orientation, target, arcs, ready) matches Some((e, m))
            ==> exists|i: int| best_at(cands, orientation, target, arcs, ready, e, i) && cands[i] == m,
        pick_intermediate(cands, orientation, target, arcs, ready) is None ==> forall|j: int|
            0 <= j < cands.len() && on_the_way(orientation, target, #[trigger] cands[j])
                ==> exclusive_count(arcs, ready, cands[j], target) == 0,
    decreases cands.len(),
{
    if cands.len() > 0 {
        let c = cands.drop_last();
        let m = cands.last();
        let last = cands.len() - 1;
        assert(cands[last] == m);
        law_intermediate_face_is_the_best(c, orientation, target, arcs, ready);
        assert forall|j: int| 0 <= j < c.len() implies #[trigger] cands[j] == c[j] by {}
        let prev = pick_intermediate(c, orientation, target, arcs, ready);
        let em = exclusive_count(arcs, ready, m, target);
        let takes_m = on_the_way(orientation, target, m) && em > 0 && (prev is None || em
            > prev.unwrap().0);
        if takes_m {
            assert(best_at(cands, orientation, target, arcs, ready, em, last)) by {
                assert forall|j: int|
                    0 <= j < cands.len() && on_the_way(orientation, target, #[trigger] cands[j])
                        implies exclusive_count(arcs, ready, cands[j], target) <= em by {
                    if j < last {
                        assert(cands[j] == c[j]);
                        if let Some((pe, pm)) = prev {
                            let i = choose|i: int| best_at(c, orientation, target, arcs, ready, pe, i) && c[i] == pm;
                            assert(on_the_way(orientation, target, c[j]));
                        } else {
                            assert(on_the_way(orientation, target, c[j]));
                        }
                    }
                }
                assert forall|j: int|
                    0 <= j < last && on_the_way(orientation, target, #[trigger] cands[j])
                        implies exclusive_count(arcs, ready, cands[j], target) < em by {
                    assert(cands[j] == c[j]);
                    if let Some((pe, pm)) = prev {
                        let i = choose|i: int| best_at(c, orientation, target, arcs, ready, pe, i) && c[i] == pm;
                        assert(on_the_way(orientation, target, c[j]));
                    } else {
                        assert(on_the_way(orientation, target, c[j]));
                    }
                }
            }
        } else {
            match prev {
                None => {
                    assert forall|j: int|
                        0 <= j < cands.len() && on_the_way(orientation, target, #[trigger] cands[j])
                            implies exclusive_count(arcs, ready, cands[j], target) == 0 by {
                        if j < last {
                            assert(cands[j] == c[j]);
                            assert(on_the_way(orientation, target, c[j]));
                        }
                    }
                },
                Some((pe, pm)) => {
                    let i = choose|i: int| best_at(c, orientation, target, arcs, ready, pe, i) && c[i] == pm;
                    assert(best_at(cands, orientation, target, arcs, ready, pe, i)) by {
                        assert(cands[i] == c[i]);
                        assert forall|j: int|
                            0 <= j < cands.len() && on_the_way(orientation, target, #[trigger] cands[j])
                                implies exclusive_count(arcs, ready, cands[j], target) <= pe by {
                            if j < last {
                                assert(cands[j] == c[j]);
                                assert(on_the_way(orientation, target, c[j]));
                            }
                        }
                        assert forall|j: int|
                            0 <= j < i && on_the_way(orientation, target, #[trigger] cands[j])
                                implies exclusive_count(arcs, ready, cands[j], target) < pe by {
                            assert(cands[j] == c[j]);
                            assert(on_the_way(orientation, target, c[j]));
                        }
                    }
                },
            }
        }
    }
}

fn exclusive_ready_exec(arcs: &[u8], ready: &[bool], m: Face, target: Face) -> (r: usize)
    requires
        ready@.len() >= arcs@.len(),
    ensures
        r == exclusive_ready(arcs@, ready@, m, target, arcs@.len() as int),
{
    let mut c: usize = 0;
    let mut k: usize = 0;
    while k < arcs.len()
        invariant
            ready@.len() >= arcs@.len(),
            k <= arcs@.len(),
            c == exclusive_ready(arcs@, ready@, m, target, k as int),
            c <= k,
        decreases arcs@.len() - k,
    {
        if does_arc_mask_cover_face(arcs[k], m) && !does_arc_mask_cover_face(arcs[k], target)
            && ready[k] {
            c = c + 1;
        }
        k = k + 1;
    }
    c
}

/// The face at a right angle to both the current face and the target with
/// the most ready weapons that it covers and the target does not; there
/// will often be none. `ready` tells, for each weapon, whether it has
/// recycled.
pub fn intermediate_ready_face(
    orientation: Face,
    target: Face,
    candidates: FaceSeq,
    weapon_arcs: &[u8],
    ready: &[bool],
) -> (r: Option<Face>)
    requires
        ready@.len() >= weapon_arcs@.len(),
    ensures
        r == match pick_intermediate(candidates@, orientation, target, weapon_arcs@, ready@) {
            Some((_, f)) => Some(f),
            None => None,
        },
{
    let mut best: Option<(usize, Face)> = None;
    let n = candidates.len();
    let mut i: usize = 0;
    while i < n
        invariant
            n == candidates@.len(),
            i <= n,
            ready@.len() >= weapon_arcs@.len(),
            match pick_intermediate(candidates@.take(i as int), orientation, target, weapon_arcs@, ready@) {
                Some((c, f)) => best matches Some((bc, bf)) && bc == c && bf == f,
                None => best is None,
            },
        decreases n - i,
    {
        let m = candidates.get(i);
        let ghost t = candidates@.take(i + 1);
        assert(t.drop_last() =~= candidates@.take(i as int));
        assert(t.last() == m);
        if orientation.angle_to(m) == 90 && m.angle_to(target) == 90 {
            let e = exclusive_ready_exec(weapon_arcs, ready, m, target);
            let better = match best {
                None => true,
                Some((c, _)) => e > c,
            };
            if e > 0 && better {
                best = Some((e, m));
            }
        }
        i = i + 1;
    }
    assert(candidates@.take(n as int) =~= candidates@);
    match best {
        Some((_, f)) => Some(f),
        None => None,
    }
}

} // verus!
