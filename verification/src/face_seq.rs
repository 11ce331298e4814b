//! A short sequence of faces packed one byte per face into a `u64`.
//!
//! Faces are stored from the low byte up as their one-hot bits, so the
//! unused slots are the leading zero bytes.

use vstd::prelude::*;
use crate::face::{Face, face_bit, face_of_bit, is_face_bit};

verus! {

/// The shift that brings byte `k` of a word to the bottom.
pub open spec fn sh(k: u64) -> u64 {
    (8 * k) as u64
}

/// Byte `i` (0 is the lowest) of a packed word.
pub open spec fn packed_byte(x: u64, i: u64) -> u64 {
    (x >> sh(i)) & 0xff
}

/// The number of bytes up to the highest nonzero byte of a packed word.
pub open spec fn packed_len(x: u64) -> u64 {
    if x == 0 {
        0
    } else if x >> sh(1) == 0 {
        1
    } else if x >> sh(2) == 0 {
        2
    } else if x >> sh(3) == 0 {
        3
    } else if x >> sh(4) == 0 {
        4
    } else if x >> sh(5) == 0 {
        5
    } else if x >> sh(6) == 0 {
        6
    } else if x >> sh(7) == 0 {
        7
    } else {
        8
    }
}

/// Every byte below the packed length holds a face's bit.
pub open spec fn packed_wf(x: u64) -> bool {
    forall|i: u64| i < packed_len(x) ==> #[trigger] is_face_bit(packed_byte(x, i) as u8)
}

proof fn lemma_shift_mono(x: u64, a: u64, b: u64)
    by (bit_vector)
    requires
        b <= a,
        x >> a != 0,
    ensures
        x >> b != 0,
{
}

proof fn lemma_bytes_above_zero(x: u64, n: u64, i: u64)
    by (bit_vector)
    requires
        n <= i < 8,
        x >> sh(n) == 0,
    ensures
        (x >> sh(i)) & 0xff == 0,
{
}

/// What the packed length says about the word.
proof fn lemma_packed_len_facts(x: u64)
    ensures
        packed_len(x) <= 8,
        packed_len(x) < 8 ==> x >> sh(packed_len(x)) == 0,
        packed_len(x) > 0 ==> x >> sh((packed_len(x) - 1) as u64) != 0,
{
    assert(x >> sh(0) == x) by (bit_vector);
    let n = packed_len(x);
    if n > 0 {
        let m = (n - 1) as u64;
        assert(m == 0 || m == 1 || m == 2 || m == 3 || m == 4 || m == 5 || m == 6 || m == 7);
    }
}

/// The packed length is pinned down by the highest nonzero byte.
proof fn lemma_packed_len_exact(x: u64, n: u64)
    requires
        n <= 8,
        n < 8 ==> x >> sh(n) == 0,
        n > 0 ==> x >> sh((n - 1) as u64) != 0,
    ensures
        packed_len(x) == n,
{
    assert(x >> sh(0) == x) by (bit_vector);
    if n > 0 {
        let top = sh((n - 1) as u64);
        if n >= 2 { lemma_shift_mono(x, top, sh(0)); }
        if n >= 2 { lemma_shift_mono(x, top, sh(1)); }
        if n >= 3 { lemma_shift_mono(x, top, sh(2)); }
        if n >= 4 { lemma_shift_mono(x, top, sh(3)); }
        if n >= 5 { lemma_shift_mono(x, top, sh(4)); }
        if n >= 6 { lemma_shift_mono(x, top, sh(5)); }
        if n >= 7 { lemma_shift_mono(x, top, sh(6)); }
    }
    assert(n == 0 || n == 1 || n == 2 || n == 3 || n == 4 || n == 5 || n == 6 || n == 7 || n == 8);
}

proof fn lemma_len_from_leading_zeros(x: u64, l: u64, n: u64)
    by (bit_vector)
    requires
        1 <= n <= 8,
        l <= 63,
        (x >> (63 - l) as u64) & 1 != 0,
        x >> (64 - l) as u64 == 0,
        n < 8 ==> x >> sh(n) == 0,
        x >> sh((n - 1) as u64) != 0,
    ensures
        l >> 3 == 8 - n,
{
}

proof fn lemma_push_bits(x: u64, b: u64, n: u64, i: u64)
    by (bit_vector)
    requires
        n < 8,
        1 <= b < 256,
        x >> sh(n) == 0,
        i < n,
    ensures
        ((x | (b << sh(n))) >> sh(i)) & 0xff == (x >> sh(i)) & 0xff,
        ((x | (b << sh(n))) >> sh(n)) & 0xff == b,
        ((x | (b << sh(n))) >> sh(n)) != 0,
        n + 1 < 8 ==> (x | (b << sh(n))) >> sh((n + 1) as u64) == 0,
{
}

proof fn lemma_push_first_byte(x: u64, b: u64, n: u64)
    by (bit_vector)
    requires
        n < 8,
        1 <= b < 256,
        x >> sh(n) == 0,
    ensures
        ((x | (b << sh(n))) >> sh(n)) & 0xff == b,
        ((x | (b << sh(n))) >> sh(n)) != 0,
        n + 1 < 8 ==> (x | (b << sh(n))) >> sh((n + 1) as u64) == 0,
{
}

proof fn lemma_fold_bytes(x: u64, fb: u8)
    by (bit_vector)
    ensures
        ({
            let y1 = (x >> 32u64) | x;
            let y2 = (y1 >> 16u64) | y1;
            let y3 = (y2 >> 8u64) | y2;
            ((y3 as u8) & fb != 0) == (
                ((((x >> sh(0)) & 0xff) as u8) & fb != 0)
                || ((((x >> sh(1)) & 0xff) as u8) & fb != 0)
                || ((((x >> sh(2)) & 0xff) as u8) & fb != 0)
                || ((((x >> sh(3)) & 0xff) as u8) & fb != 0)
                || ((((x >> sh(4)) & 0xff) as u8) & fb != 0)
                || ((((x >> sh(5)) & 0xff) as u8) & fb != 0)
                || ((((x >> sh(6)) & 0xff) as u8) & fb != 0)
                || ((((x >> sh(7)) & 0xff) as u8) & fb != 0)
            )
        }),
{
}

proof fn lemma_one_hot_and(a: u8, b: u8)
    requires
        a == 0 || is_face_bit(a),
        is_face_bit(b),
    ensures
        (a & b != 0) == (a == b),
{
    assert((a == 0u8 || a == 1u8 || a == 2u8 || a == 4u8 || a == 8u8 || a == 16u8 || a == 32u8)
        && (b == 1u8 || b == 2u8 || b == 4u8 || b == 8u8 || b == 16u8 || b == 32u8)
        ==> ((a & b != 0) == (a == b))) by (bit_vector);
}

proof fn lemma_byte_cast(x: u64, i: u64)
    by (bit_vector)
    requires
        i < 8,
    ensures
        (i << 3u64) == sh(i),
        (x >> (i << 3u64)) as u8 == ((x >> sh(i)) & 0xff) as u8,
{
}

spec fn byte_matches(x: u64, i: u64, n: u64, fb: u8, f: Face) -> bool {
    let bi = packed_byte(x, i) as u8;
    &&& bi == 0 || is_face_bit(bi)
    &&& (bi & fb != 0) == (bi == fb)
    &&& (bi == fb <==> (i < n && face_of_bit(bi) == f))
}

/// Distinct faces visited, in the order of their first visit.
#[derive(Clone, Copy)]
pub struct FaceSeq(u64);

impl View for FaceSeq {
    type V = Seq<Face>;

    closed spec fn view(&self) -> Seq<Face> {
        Seq::new(packed_len(self.0) as nat, |i: int| face_of_bit(packed_byte(self.0, i as u64) as u8))
    }
}

impl FaceSeq {
    #[verifier::type_invariant]
    closed spec fn inv(self) -> bool {
        packed_wf(self.0)
    }

    /// The empty sequence.
    pub fn new() -> (r: FaceSeq)
        ensures
            r@ == Seq::<Face>::empty(),
    {
        let r = FaceSeq(0);
        assert(r@ =~= Seq::<Face>::empty());
        r
    }

    /// The number of faces held, read off the leading zero bytes.
    pub fn len(self) -> (r: usize)
        ensures
            r == self@.len(),
            r <= 8,
    {
        proof {
            use_type_invariant(&self);
            lemma_packed_len_facts(self.0);
        }
        let lz = self.0.leading_zeros();
        proof {
            vstd::std_specs::bits::axiom_u64_leading_zeros(self.0);
            let n = packed_len(self.0);
            if n > 0 {
                lemma_len_from_leading_zeros(self.0, lz as u64, n);
            } else {
                assert(lz == 64);
                assert(64u64 >> 3u64 == 8) by (bit_vector);
            }
        }
        8 - ((lz as usize) >> 3)
    }

    /// Append a face.
    pub fn push(&mut self, f: Face)
        requires
            old(self)@.len() < 8,
        ensures
            final(self)@ == old(self)@.push(f),
    {
        proof {
            use_type_invariant(&*self);
        }
        let n = self.len();
        let x = self.0;
        let b = f.bit() as u64;
        let shift = (n << 3) as u64;
        assert(shift == (8 * n) as u64) by (bit_vector)
            requires
                n < 8,
                shift == (n << 3) as u64,
        ;
        proof {
            lemma_packed_len_facts(x);
            lemma_push_first_byte(x, b, n as u64);
        }
        let y = x | (b << shift);
        proof {
            lemma_packed_len_exact(y, (n + 1) as u64);
            assert forall|i: u64| i < n implies #[trigger] packed_byte(y, i) == packed_byte(x, i) by {
                lemma_push_bits(x, b, n as u64, i);
            }
            assert(packed_byte(y, n as u64) == b);
            assert(packed_wf(y));
        }
        self.0 = y;
        proof {
            assert(self@ =~= old(self)@.push(f));
        }
    }

    /// Whether a face is held: OR-folding the bytes gives the set of faces
    /// as one byte.
    pub fn contains(self, f: Face) -> (r: bool)
        ensures
            r == self@.contains(f),
    {
        proof {
            use_type_invariant(&self);
            lemma_packed_len_facts(self.0);
        }
        let x0 = self.0;
        let x = (x0 >> 32) | x0;
        let x = (x >> 16) | x;
        let x = (x >> 8) | x;
        let fb = f.bit();
        let r = (x as u8) & fb != 0;
        proof {
            lemma_fold_bytes(x0, fb);
            let n = packed_len(x0);
            assert forall|i: u64| i < 8 implies #[trigger] byte_matches(x0, i, n, fb, f) by {
                let bi = packed_byte(x0, i) as u8;
                if i >= n {
                    lemma_bytes_above_zero(x0, n, i);
                    assert(bi == 0);
                } else {
                    assert(is_face_bit(bi));
                }
                lemma_one_hot_and(bi, fb);
            }
            if r {
                let i: u64 = if packed_byte(x0, 0) as u8 & fb != 0 { 0 }
                    else if packed_byte(x0, 1) as u8 & fb != 0 { 1 }
                    else if packed_byte(x0, 2) as u8 & fb != 0 { 2 }
                    else if packed_byte(x0, 3) as u8 & fb != 0 { 3 }
                    else if packed_byte(x0, 4) as u8 & fb != 0 { 4 }
                    else if packed_byte(x0, 5) as u8 & fb != 0 { 5 }
                    else if packed_byte(x0, 6) as u8 & fb != 0 { 6 }
                    else { 7 };
                assert(byte_matches(x0, i, n, fb, f));
                assert(self@[i as int] == f);
            } else {
                assert forall|j: int| 0 <= j < self@.len() implies self@[j] != f by {
                    let k = j as u64;
                    assert(k == 0 || k == 1 || k == 2 || k == 3 || k == 4 || k == 5 || k == 6 || k == 7);
                    assert(byte_matches(x0, k, n, fb, f));
                    assert(packed_byte(x0, k) as u8 & fb == 0);
                }
            }
        }
        r
    }

    /// Append a face unless it is already held.
    pub fn push_unique(&mut self, f: Face)
        requires
            !old(self)@.contains(f) ==> old(self)@.len() < 8,
        ensures
            final(self)@ == if old(self)@.contains(f) { old(self)@ } else { old(self)@.push(f) },
    {
        if !self.contains(f) {
            self.push(f);
        }
    }

    /// The face at position `i`.
    pub fn get(self, i: usize) -> (r: Face)
        requires
            i < self@.len(),
        ensures
            r == self@[i as int],
    {
        proof {
            use_type_invariant(&self);
            lemma_packed_len_facts(self.0);
            lemma_byte_cast(self.0, i as u64);
        }
        let shift: u64 = (i as u64) << 3;
        let b = (self.0 >> shift) as u8;
        Face::from_bit(b)
    }
}

/// Appending a face only when it is new keeps the faces distinct, and the
/// face is then held.
pub proof fn law_push_unique_distinct(s: Seq<Face>, f: Face)
    requires
        s.no_duplicates(),
    ensures
        (if s.contains(f) { s } else { s.push(f) }).no_duplicates(),
        (if s.contains(f) { s } else { s.push(f) }).contains(f),
{
    if !s.contains(f) {
        let t = s.push(f);
        assert(t[s.len() as int] == f);
        assert forall|i: int, j: int| 0 <= i < t.len() && 0 <= j < t.len() && i != j implies t[i]
            != t[j] by {
            if i < s.len() && j < s.len() {
                assert(t[i] == s[i] && t[j] == s[j]);
            } else if i < s.len() {
                assert(t[i] == s[i]);
                assert(s.contains(s[i]));
            } else {
                assert(t[j] == s[j]);
                assert(s.contains(s[j]));
            }
        }
    }
}

/// A sequence of distinct faces holds at most the six faces of the cube,
/// so appending new faces never overflows the eight packed slots.
pub proof fn law_distinct_faces_at_most_six(s: Seq<Face>)
    requires
        s.no_duplicates(),
    ensures
        s.len() <= 6,
{
    broadcast use vstd::set::group_set_axioms;

    s.unique_seq_to_set();
    let all = set![Face::Fore, Face::Aft, Face::Port, Face::Starboard, Face::Dorsal, Face::Ventral];
    assert(s.to_set().subset_of(all)) by {
        assert forall|f: Face| s.to_set().contains(f) implies all.contains(f) by {
            match f {
                Face::Fore => {},
                Face::Aft => {},
                Face::Port => {},
                Face::Starboard => {},
                Face::Dorsal => {},
                Face::Ventral => {},
            }
        }
    }
    assert(all.len() == 6);
    vstd::set_lib::lemma_len_subset(s.to_set(), all);
}

} // verus!
