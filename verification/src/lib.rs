//! Ship catalog library for the ATS TrekMUSH ship calculator: reads
//! `@listspecs` sheets out of game logs, models weapons and arcs, and holds
//! the turn-time random number generator used by the damage simulator.

mod arcs;
mod catalog;
mod face;
mod face_seq;
mod groups;
mod labels;
mod lines;
mod logparse;
mod number;
mod order;
mod sheet;
mod patterns;
mod rng;
mod ship;
mod text;
mod weapon;

pub use arcs::{arc_mask, arc_masks, candidate_faces, does_arc_mask_cover_face, intermediate_ready_face};
pub use catalog::{
    add_commas, find_ship, parse_rgb, parse_timing, place_upload, ship_query_names, weapon_rows_of_ships, TurnTimingModel, Upload,
};
pub use face::Face;
pub use lines::get_lines_memchr;
pub use logparse::{parse_logs, try_parse_logs};
pub use face_seq::FaceSeq;
pub use number::Number;
pub use order::{order_by_slot, order_ignoring_case, sorted_ignoring_case};
pub use rng::TurnRng;
pub use ship::{is_transwarp, Ship, ShipModel};
pub use weapon::{Weapon, WeaponKind, WeaponModel, WeaponType};
