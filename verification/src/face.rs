//! Faces of the cube a ship presents to its target, the packed sequence of
//! faces visited, and weapon arc masks.

use vstd::prelude::*;

verus! {

/// One face of the cube around a ship. A weapon's arc covers some faces.
#[derive(Clone, Copy, PartialEq, Eq, Structural, Hash, Debug)]
pub enum Face {
    Fore,
    Aft,
    Port,
    Starboard,
    Dorsal,
    Ventral,
}

/// The one-hot bit of a face; opposite faces are adjacent bit pairs.
pub open spec fn face_bit(f: Face) -> u8 {
    match f {
        Face::Fore => 1,
        Face::Aft => 2,
        Face::Port => 4,
        Face::Starboard => 8,
        Face::Dorsal => 16,
        Face::Ventral => 32,
    }
}

pub open spec fn is_face_bit(b: u8) -> bool {
    b == 1 || b == 2 || b == 4 || b == 8 || b == 16 || b == 32
}

pub open spec fn face_of_bit(b: u8) -> Face {
    if b == 1 {
        Face::Fore
    } else if b == 2 {
        Face::Aft
    } else if b == 4 {
        Face::Port
    } else if b == 8 {
        Face::Starboard
    } else if b == 16 {
        Face::Dorsal
    } else {
        Face::Ventral
    }
}

/// The position of a face in the fixed face order (its tie-break priority).
pub open spec fn face_index(f: Face) -> nat {
    match f {
        Face::Fore => 0,
        Face::Aft => 1,
        Face::Port => 2,
        Face::Starboard => 3,
        Face::Dorsal => 4,
        Face::Ventral => 5,
    }
}

/// The fixed face order: Fore, Aft, Port, Starboard, Dorsal, Ventral.
pub open spec fn face_at(i: int) -> Face {
    if i == 0 {
        Face::Fore
    } else if i == 1 {
        Face::Aft
    } else if i == 2 {
        Face::Port
    } else if i == 3 {
        Face::Starboard
    } else if i == 4 {
        Face::Dorsal
    } else {
        Face::Ventral
    }
}

pub open spec fn opposite_face(f: Face) -> Face {
    match f {
        Face::Fore => Face::Aft,
        Face::Aft => Face::Fore,
        Face::Port => Face::Starboard,
        Face::Starboard => Face::Port,
        Face::Dorsal => Face::Ventral,
        Face::Ventral => Face::Dorsal,
    }
}

/// Degrees between two faces: 0 for the same face, 180 for opposite faces,
/// 90 for adjacent faces.
pub open spec fn angle_between(a: Face, b: Face) -> u32 {
    if a == b {
        0
    } else if opposite_face(a) == b {
        180
    } else {
        90
    }
}

pub open spec fn face_label(f: Face) -> char {
    match f {
        Face::Fore => 'F',
        Face::Aft => 'A',
        Face::Port => 'P',
        Face::Starboard => 'S',
        Face::Dorsal => 'D',
        Face::Ventral => 'V',
    }
}

/// The face an arc letter names, in either case.
pub open spec fn face_of_char(c: char) -> Option<Face> {
    if c == 'F' || c == 'f' {
        Some(Face::Fore)
    } else if c == 'A' || c == 'a' {
        Some(Face::Aft)
    } else if c == 'P' || c == 'p' {
        Some(Face::Port)
    } else if c == 'S' || c == 's' {
        Some(Face::Starboard)
    } else if c == 'D' || c == 'd' {
        Some(Face::Dorsal)
    } else if c == 'V' || c == 'v' {
        Some(Face::Ventral)
    } else {
        None
    }
}

impl Face {
    /// Every face, in priority order.
    pub fn all() -> (r: [Face; 6])
        ensures
            forall|i: int| 0 <= i < 6 ==> #[trigger] r@[i] == face_at(i),
    {
        [Face::Fore, Face::Aft, Face::Port, Face::Starboard, Face::Dorsal, Face::Ventral]
    }

    /// The face's one-hot bit.
    pub fn bit(self) -> (b: u8)
        ensures
            b == face_bit(self),
    {
        match self {
            Face::Fore => 1,
            Face::Aft => 2,
            Face::Port => 4,
            Face::Starboard => 8,
            Face::Dorsal => 16,
            Face::Ventral => 32,
        }
    }

    /// The face named by an arc letter (F, A, P, S, D, V in either case).
    pub fn from_char(c: char) -> (r: Option<Face>)
        ensures
            r == face_of_char(c),
    {
        match c {
            'F' | 'f' => Some(Face::Fore),
            'A' | 'a' => Some(Face::Aft),
            'P' | 'p' => Some(Face::Port),
            'S' | 's' => Some(Face::Starboard),
            'D' | 'd' => Some(Face::Dorsal),
            'V' | 'v' => Some(Face::Ventral),
            _ => None,
        }
    }

    /// The face whose one-hot bit is `b`.
    pub fn from_bit(b: u8) -> (r: Face)
        requires
            is_face_bit(b),
        ensures
            face_bit(r) == b,
            r == face_of_bit(b),
    {
        if b == 1 {
            Face::Fore
        } else if b == 2 {
            Face::Aft
        } else if b == 4 {
            Face::Port
        } else if b == 8 {
            Face::Starboard
        } else if b == 16 {
            Face::Dorsal
        } else {
            Face::Ventral
        }
    }

    /// The face on the opposite side of the cube, found by swapping each
    /// bit of the face's bit with its neighbour.
    pub fn opposite(self) -> (r: Face)
        ensures
            r == opposite_face(self),
    {
        let d = self.bit();
        let opp: u8 = ((d & 0x55) << 1) | ((d & 0xAA) >> 1);
        assert(
            (d == 1u8 ==> opp == 2u8) && (d == 2u8 ==> opp == 1u8) && (d == 4u8 ==> opp == 8u8)
            && (d == 8u8 ==> opp == 4u8) && (d == 16u8 ==> opp == 32u8) && (d == 32u8 ==> opp == 16u8)
        ) by (bit_vector)
            requires
                opp == ((d & 0x55u8) << 1u8) | ((d & 0xAAu8) >> 1u8),
        ;
        Face::from_bit(opp)
    }

    /// The face's arc letter.
    pub fn label(self) -> (r: char)
        ensures
            r == face_label(self),
    {
        match self {
            Face::Fore => 'F',
            Face::Aft => 'A',
            Face::Port => 'P',
            Face::Starboard => 'S',
            Face::Dorsal => 'D',
            Face::Ventral => 'V',
        }
    }

    /// Degrees to turn from this face to `other`: 0, 90 or 180.
    pub fn angle_to(self, other: Face) -> (r: u32)
        ensures
            r == angle_between(self, other),
    {
        if self == other {
            0
        } else if self.opposite() == other {
            180
        } else {
            90
        }
    }

    /// The face's position in the fixed face order.
    pub fn priority(self) -> (r: usize)
        ensures
            r == face_index(self),
    {
        match self {
            Face::Fore => 0,
            Face::Aft => 1,
            Face::Port => 2,
            Face::Starboard => 3,
            Face::Dorsal => 4,
            Face::Ventral => 5,
        }
    }
}

/// Each face is at a right angle to the four faces other than itself and
/// its opposite, and angles are symmetric.
pub proof fn law_angles_symmetric(a: Face, b: Face)
    ensures
        angle_between(a, b) == angle_between(b, a),
        opposite_face(opposite_face(a)) == a,
        opposite_face(a) != a,
        angle_between(a, opposite_face(a)) == 180,
{
}

/// The outward unit axis of a face, as a point `(x, y, z)`: fore and aft
/// along x, port and starboard along y, dorsal and ventral along z.
pub open spec fn face_axis(f: Face) -> (int, int, int) {
    match f {
        Face::Fore => (1, 0, 0),
        Face::Aft => (-1, 0, 0),
        Face::Port => (0, 1, 0),
        Face::Starboard => (0, -1, 0),
        Face::Dorsal => (0, 0, 1),
        Face::Ventral => (0, 0, -1),
    }
}

/// The dot product of two faces' axes: the cosine of the angle between
/// them.
pub open spec fn axis_dot(a: Face, b: Face) -> int {
    face_axis(a).0 * face_axis(b).0 + face_axis(a).1 * face_axis(b).1 + face_axis(a).2
        * face_axis(b).2
}

/// The angle between two faces is the angle between their axes on the
/// cube: 0 where the axes agree (cosine 1), 180 where they point apart
/// (cosine -1), and 90 where they are at a right angle (cosine 0), so each
/// face is at 90 degrees to the four faces other than itself and the one
/// across from it. Turning from a face to the face across takes 180
/// degrees, and to any other face of the cube 90.
pub proof fn law_angle_is_the_angle_between_axes(a: Face, b: Face)
    by (nonlinear_arith)
    ensures
        axis_dot(a, b) == 1 ==> angle_between(a, b) == 0,
        axis_dot(a, b) == -1 ==> angle_between(a, b) == 180,
        axis_dot(a, b) == 0 ==> angle_between(a, b) == 90,
        axis_dot(a, b) == 1 || axis_dot(a, b) == -1 || axis_dot(a, b) == 0,
        axis_dot(a, b) == 1 <==> a == b,
        face_axis(opposite_face(a)) == (-face_axis(a).0, -face_axis(a).1, -face_axis(a).2),
{
    match a {
        Face::Fore => {
            match b {
                Face::Fore => {},
                Face::Aft => {},
                Face::Port => {},
                Face::Starboard => {},
                Face::Dorsal => {},
                Face::Ventral => {},
            }
        },
        Face::Aft => {
            match b {
                Face::Fore => {},
                Face::Aft => {},
                Face::Port => {},
                Face::Starboard => {},
                Face::Dorsal => {},
                Face::Ventral => {},
            }
        },
        Face::Port => {
            match b {
                Face::Fore => {},
                Face::Aft => {},
                Face::Port => {},
                Face::Starboard => {},
                Face::Dorsal => {},
                Face::Ventral => {},
            }
        },
        Face::Starboard => {
            match b {
                Face::Fore => {},
                Face::Aft => {},
                Face::Port => {},
                Face::Starboard => {},
                Face::Dorsal => {},
                Face::Ventral => {},
            }
        },
        Face::Dorsal => {
            match b {
                Face::Fore => {},
                Face::Aft => {},
                Face::Port => {},
                Face::Starboard => {},
                Face::Dorsal => {},
                Face::Ventral => {},
            }
        },
        Face::Ventral => {
            match b {
                Face::Fore => {},
                Face::Aft => {},
                Face::Port => {},
                Face::Starboard => {},
                Face::Dorsal => {},
                Face::Ventral => {},
            }
        },
    }
}

} // verus!
