//! Reading the `@listspecs` sheets out of a game log.
//!
//! A sheet starts at its title bar, `~~~ Name (Category) (#dbref) ~~~`.
//! The ship's art follows, up to a line of tildes or the first labelled
//! line; then the labelled lines, and the beam and missile tables, whose
//! rows (`Cost:`, `Range:`, `Arcs:`, `Damage:`, `Time:`, `DPS:`) may wrap
//! over several blocks. A sheet becomes a ship when it has a category, a
//! structure and a beam count.

use vstd::prelude::*;
use fxhash::FxHashMap;
use crate::groups::{group, new_groups, put_group, take_group};
use crate::lines::{
    law_lines_hold_no_line_breaks, law_lines_of_concatenation, lines_from, get_lines_memchr,
    no_line_breaks,
};
use crate::number::{Number, is_float_literal, parse_i64_digits, parse_i64_exec};
use crate::patterns::{
    RowLabel, art_end_match, art_end_match_exec, header_captures, header_captures_exec,
    row_captures, row_captures_exec, title_captures, title_captures_exec,
};
use crate::sheet::{
    FieldsModel, SheetFields, apply_label, empty_fields, opt_chars, opt_number,
};
use crate::ship::{Ship, ShipModel};
use crate::text::{
    char_is_ws, chars_of, is_ws, lemma_skip_ws_bounds, lemma_trim_end_bounds, single_line,
    skip_ws, starts_with, string_of, sub_vec, tokens_exec, tokens_from, trim, trim_end,
    trim_end_exec_vec, trim_end_index, trim_exec, trim_start, trim_start_exec,
};
use crate::weapon::{Weapon, WeaponKind, WeaponModel, WeaponType};

verus! {

// ---------------------------------------------------------------------
// Weapon table rows
// ---------------------------------------------------------------------

/// The values gathered for each row of the current weapon table, over all
/// its blocks so far.
pub struct RowsModel {
    pub cost: Seq<Seq<char>>,
    pub range: Seq<Seq<char>>,
    pub arcs: Seq<Seq<char>>,
    pub damage: Seq<Seq<char>>,
    pub time: Seq<Seq<char>>,
    pub dps: Seq<Seq<char>>,
}

pub open spec fn empty_rows() -> RowsModel {
    RowsModel {
        cost: Seq::empty(),
        range: Seq::empty(),
        arcs: Seq::empty(),
        damage: Seq::empty(),
        time: Seq::empty(),
        dps: Seq::empty(),
    }
}

/// The rows with `toks` added at the end of row `l`.
pub open spec fn extend_row(r: RowsModel, l: RowLabel, toks: Seq<Seq<char>>) -> RowsModel {
    match l {
        RowLabel::Cost => RowsModel { cost: r.cost + toks, ..r },
        RowLabel::Range => RowsModel { range: r.range + toks, ..r },
        RowLabel::Arcs => RowsModel { arcs: r.arcs + toks, ..r },
        RowLabel::Damage => RowsModel { damage: r.damage + toks, ..r },
        RowLabel::Time => RowsModel { time: r.time + toks, ..r },
        RowLabel::Dps => RowsModel { dps: r.dps + toks, ..r },
    }
}

pub open spec fn texts(v: Seq<Vec<char>>) -> Seq<Seq<char>> {
    v.map_values(|x: Vec<char>| x@)
}

/// Row `l` of the gathered rows.
pub open spec fn row_of(r: RowsModel, l: RowLabel) -> Seq<Seq<char>> {
    match l {
        RowLabel::Cost => r.cost,
        RowLabel::Range => r.range,
        RowLabel::Arcs => r.arcs,
        RowLabel::Damage => r.damage,
        RowLabel::Time => r.time,
        RowLabel::Dps => r.dps,
    }
}

/// The key under which row `l` is kept.
pub open spec fn row_key_of(l: RowLabel) -> i64 {
    match l {
        RowLabel::Cost => 0,
        RowLabel::Range => 1,
        RowLabel::Arcs => 2,
        RowLabel::Damage => 3,
        RowLabel::Time => 4,
        RowLabel::Dps => 5,
    }
}

fn row_key_exec(l: RowLabel) -> (k: i64)
    ensures
        k == row_key_of(l),
{
    match l {
        RowLabel::Cost => 0,
        RowLabel::Range => 1,
        RowLabel::Arcs => 2,
        RowLabel::Damage => 3,
        RowLabel::Time => 4,
        RowLabel::Dps => 5,
    }
}

/// The texts kept under row `l`'s key; none where it has no entry.
pub open spec fn kept_row(m: Map<i64, Vec<Vec<char>>>, l: RowLabel) -> Seq<Seq<char>> {
    if m.contains_key(row_key_of(l)) {
        texts(m[row_key_of(l)]@)
    } else {
        Seq::empty()
    }
}

/// The rows of the current weapon table, each kept under its own key.
pub struct WeaponRows {
    groups: FxHashMap<i64, Vec<Vec<char>>>,
}

impl View for WeaponRows {
    type V = RowsModel;

    closed spec fn view(&self) -> RowsModel {
        RowsModel {
            cost: kept_row(self.groups@, RowLabel::Cost),
            range: kept_row(self.groups@, RowLabel::Range),
            arcs: kept_row(self.groups@, RowLabel::Arcs),
            damage: kept_row(self.groups@, RowLabel::Damage),
            time: kept_row(self.groups@, RowLabel::Time),
            dps: kept_row(self.groups@, RowLabel::Dps),
        }
    }
}

/// Move every text of `src` to the end of `dst`.
fn append_texts(dst: &mut Vec<Vec<char>>, src: Vec<Vec<char>>)
    ensures
        texts(final(dst)@) == texts(old(dst)@) + texts(src@),
{
    let mut src = src;
    let ghost s = src@;
    dst.append(&mut src);
    assert(texts(dst@) =~= texts(old(dst)@) + texts(s));
}

impl WeaponRows {
    pub fn new() -> (r: WeaponRows)
        ensures
            r@ == empty_rows(),
    {
        WeaponRows { groups: new_groups() }
    }

    /// Add values at the end of one row.
    pub fn extend(&mut self, l: RowLabel, toks: Vec<Vec<char>>)
        ensures
            final(self)@ == extend_row(old(self)@, l, texts(toks@)),
    {
        let k = row_key_exec(l);
        let mut v = match take_group(&mut self.groups, k) {
            Some(v) => v,
            None => {
                let e: Vec<Vec<char>> = Vec::new();
                assert(texts(e@) =~= Seq::<Seq<char>>::empty());
                e
            },
        };
        append_texts(&mut v, toks);
        put_group(&mut self.groups, k, v);
        assert(self@ =~= extend_row(old(self)@, l, texts(toks@)));
    }

    /// How many values row `l` holds.
    pub fn count(&self, l: RowLabel) -> (n: usize)
        ensures
            n == row_of(self@, l).len(),
    {
        match group(&self.groups, row_key_exec(l)) {
            Some(v) => v.len(),
            None => 0,
        }
    }

    /// Value `i` of row `l`, where the row has that many.
    pub fn value(&self, l: RowLabel, i: usize) -> (t: Option<&Vec<char>>)
        ensures
            match t {
                Some(x) => i < row_of(self@, l).len() && x@ == row_of(self@, l)[i as int],
                None => i >= row_of(self@, l).len(),
            },
    {
        match group(&self.groups, row_key_exec(l)) {
            Some(v) => if i < v.len() {
                Some(&v[i])
            } else {
                None
            },
            None => None,
        }
    }
}

// ---------------------------------------------------------------------
// Cutting the arcs row
// ---------------------------------------------------------------------

/// The number of bytes of a char in UTF-8.
pub open spec fn utf8_width(c: char) -> int {
    let u = c as u32;
    if u < 0x80 {
        1
    } else if u < 0x800 {
        2
    } else if u < 0x10000 {
        3
    } else {
        4
    }
}

/// Where the next `m` bytes of UTF-8 from char `i` end: the index of the
/// first char past them, or the end of `s` when fewer are left; `None`
/// when they end inside a char.
pub open spec fn chunk_end(s: Seq<char>, i: int, m: int) -> Option<int>
    decreases s.len() - i,
{
    if i < 0 || m <= 0 || i >= s.len() {
        Some(i)
    } else if utf8_width(s[i]) > m {
        None
    } else {
        chunk_end(s, i + 1, m - utf8_width(s[i]))
    }
}

/// The arcs row from char `i` on, cut every six bytes, each piece
/// trimmed; `None` when a cut falls inside a char.
pub open spec fn arc_chunks_from(s: Seq<char>, i: int) -> Option<Seq<Seq<char>>>
    decreases s.len() - i,
{
    if i < 0 || i >= s.len() {
        Some(Seq::empty())
    } else {
        match chunk_end(s, i, 6) {
            None => None,
            Some(j) => if j <= i || j > s.len() {
                None
            } else {
                match arc_chunks_from(s, j) {
                    None => None,
                    Some(t) => Some(seq![trim(s.subrange(i, j))] + t),
                }
            },
        }
    }
}

/// The arcs of a row: one per six-byte column.
pub open spec fn arc_chunks(s: Seq<char>) -> Option<Seq<Seq<char>>> {
    arc_chunks_from(s, 0)
}

proof fn lemma_chunk_end_bounds(s: Seq<char>, i: int, m: int)
    requires
        0 <= i <= s.len(),
    ensures
        chunk_end(s, i, m) matches Some(j) ==> i <= j <= s.len(),
        chunk_end(s, i, m) matches Some(j) ==> (i < s.len() && m >= 4 ==> i < j),
    decreases s.len() - i,
{
    if i < 0 || m <= 0 || i >= s.len() {
    } else if utf8_width(s[i]) > m {
    } else {
        lemma_chunk_end_bounds(s, i + 1, m - utf8_width(s[i]));
    }
}

fn char_width(c: char) -> (w: usize)
    ensures
        w == utf8_width(c),
{
    let u = c as u32;
    if u < 0x80 {
        1
    } else if u < 0x800 {
        2
    } else if u < 0x10000 {
        3
    } else {
        4
    }
}

fn chunk_end_exec(s: &[char], i: usize) -> (r: Option<usize>)
    requires
        i <= s@.len(),
    ensures
        r is Some <==> chunk_end(s@, i as int, 6) is Some,
        r matches Some(j) ==> chunk_end(s@, i as int, 6) == Some(j as int),
{
    let mut k = i;
    let mut m: usize = 6;
    while m > 0 && k < s.len()
        invariant
            i <= k <= s@.len(),
            m <= 6,
            chunk_end(s@, k as int, m as int) == chunk_end(s@, i as int, 6),
        decreases s@.len() - k,
    {
        let w = char_width(s[k]);
        if w > m {
            return None;
        }
        m = m - w;
        k = k + 1;
    }
    Some(k)
}

/// The arcs of a row: one per six-byte column, trimmed.
pub fn arc_chunks_exec(s: &[char]) -> (r: Option<Vec<Vec<char>>>)
    ensures
        r is Some <==> arc_chunks(s@) is Some,
        r matches Some(v) ==> arc_chunks(s@) == Some(texts(v@)),
{
    let mut out: Vec<Vec<char>> = Vec::new();
    let ghost done: Seq<Seq<char>> = Seq::empty();
    let mut i: usize = 0;
    while i < s.len()
        invariant
            i <= s@.len(),
            texts(out@) == done,
            arc_chunks_from(s@, 0) == match arc_chunks_from(s@, i as int) {
                None => None,
                Some(t) => Some(done + t),
            },
        decreases s@.len() - i,
    {
        proof {
            lemma_chunk_end_bounds(s@, i as int, 6);
        }
        let j = match chunk_end_exec(s, i) {
            None => return None,
            Some(j) => j,
        };
        let piece = trim_exec(sub_vec(s, i, j).as_slice());
        proof {
            let p = piece@;
            match arc_chunks_from(s@, j as int) {
                None => {},
                Some(t) => {
                    assert(done + (seq![p] + t) =~= done.push(p) + t);
                },
            }
            done = done.push(p);
        }
        out.push(piece);
        assert(texts(out@) =~= done);
        i = j;
    }
    assert(done + Seq::<Seq<char>>::empty() =~= done);
    Some(out)
}

// ---------------------------------------------------------------------
// The sheet being read
// ---------------------------------------------------------------------

/// Mathematical model of a sheet being read.
pub struct BlockModel {
    pub dbref: i64,
    pub name: Seq<char>,
    pub category: Option<Seq<char>>,
    pub fields: FieldsModel,
    pub beams_count: Option<i64>,
    pub beams_dps: Option<Seq<char>>,
    pub missiles_count: Option<i64>,
    pub missiles_dps: Option<Seq<char>>,
    pub weapons: Seq<WeaponModel>,
    pub cur_weapon: Option<WeaponKind>,
    pub rows: RowsModel,
    pub complete: bool,
    pub art_lines: Seq<Seq<char>>,
    pub has_art: bool,
}

/// A sheet being read.
pub struct ShipSpecBlock {
    dbref: i64,
    name: Vec<char>,
    category: Option<Vec<char>>,
    fields: SheetFields,
    beams_count: Option<i64>,
    beams_dps: Option<Number>,
    missiles_count: Option<i64>,
    missiles_dps: Option<Number>,
    weapons: Vec<Weapon>,
    cur_weapon: Option<WeaponType>,
    rows: WeaponRows,
    complete: bool,
    art_lines: Vec<Vec<char>>,
    has_art: bool,
}

pub open spec fn opt_kind(o: Option<WeaponType>) -> Option<WeaponKind> {
    match o {
        Some(k) => Some(k@),
        None => None,
    }
}

pub open spec fn weapon_models(v: Seq<Weapon>) -> Seq<WeaponModel> {
    v.map_values(|w: Weapon| w@)
}

impl View for ShipSpecBlock {
    type V = BlockModel;

    closed spec fn view(&self) -> BlockModel {
        BlockModel {
            dbref: self.dbref,
            name: self.name@,
            category: opt_chars(self.category),
            fields: self.fields@,
            beams_count: self.beams_count,
            beams_dps: opt_number(self.beams_dps),
            missiles_count: self.missiles_count,
            missiles_dps: opt_number(self.missiles_dps),
            weapons: weapon_models(self.weapons@),
            cur_weapon: opt_kind(self.cur_weapon),
            rows: self.rows@,
            complete: self.complete,
            art_lines: texts(self.art_lines@),
            has_art: self.has_art,
        }
    }
}

/// A sheet just after its title: the art comes first.
pub open spec fn new_block(dbref: i64, name: Seq<char>, category: Option<Seq<char>>) -> BlockModel {
    BlockModel {
        dbref,
        name,
        category,
        fields: empty_fields(),
        beams_count: None,
        beams_dps: None,
        missiles_count: None,
        missiles_dps: None,
        weapons: Seq::empty(),
        cur_weapon: None,
        rows: empty_rows(),
        complete: false,
        art_lines: Seq::empty(),
        has_art: true,
    }
}

/// A column of numbers: the value in the weapon's column when it is a
/// number, else zero.
pub open spec fn weapon_col(v: Seq<Seq<char>>, i: int) -> Seq<char> {
    if 0 <= i < v.len() && is_float_literal(v[i]) {
        v[i]
    } else {
        seq!['0']
    }
}

/// The weapon in column `i` of a table: one weapon per arc, numbered from
/// one.
pub open spec fn section_weapon(kind: WeaponKind, rows: RowsModel, i: int) -> WeaponModel {
    WeaponModel {
        weapon_type: kind,
        slot: (i + 1) as i64,
        cost: weapon_col(rows.cost, i),
        range: weapon_col(rows.range, i),
        arc: rows.arcs[i],
        damage: weapon_col(rows.damage, i),
        recycle_time: weapon_col(rows.time, i),
        dps: weapon_col(rows.dps, i),
    }
}

pub open spec fn section_weapons(kind: WeaponKind, rows: RowsModel) -> Seq<WeaponModel> {
    Seq::new(rows.arcs.len(), |i: int| section_weapon(kind, rows, i))
}

/// Closing the current weapon table: its weapons are added, one per arc,
/// and the missile table completes the sheet. The rows are emptied.
pub open spec fn flush(b: BlockModel) -> BlockModel {
    match b.cur_weapon {
        None => BlockModel { rows: empty_rows(), ..b },
        Some(kind) => if b.rows.arcs.len() == 0 {
            BlockModel { cur_weapon: None, rows: empty_rows(), ..b }
        } else {
            BlockModel {
                weapons: b.weapons + section_weapons(kind, b.rows),
                complete: b.complete || kind == WeaponKind::Missile,
                cur_weapon: None,
                rows: empty_rows(),
                ..b
            }
        },
    }
}

/// A number's text when it is one.
pub open spec fn number_text(t: Seq<char>) -> Option<Seq<char>> {
    if is_float_literal(t) {
        Some(t)
    } else {
        None
    }
}

/// A `Beams:` header opens the beam table.
pub open spec fn beams_header(b: BlockModel, count: Seq<char>, dps: Seq<char>) -> BlockModel {
    BlockModel {
        beams_count: parse_i64_digits(count),
        beams_dps: number_text(dps),
        cur_weapon: Some(WeaponKind::Beam),
        rows: empty_rows(),
        ..flush(b)
    }
}

/// A `Missiles:` header opens the missile table.
pub open spec fn missiles_header(b: BlockModel, count: Seq<char>, dps: Seq<char>) -> BlockModel {
    BlockModel {
        missiles_count: parse_i64_digits(count),
        missiles_dps: number_text(dps),
        cur_weapon: Some(WeaponKind::Missile),
        rows: empty_rows(),
        ..flush(b)
    }
}

/// The values of a row: the arcs cut into columns, the others split at
/// whitespace.
pub open spec fn row_tokens(l: RowLabel, rest: Seq<char>) -> Option<Seq<Seq<char>>> {
    if l == RowLabel::Arcs {
        arc_chunks(rest)
    } else {
        Some(tokens_from(rest, 0))
    }
}

/// The number of weapons the current table's header announced.
pub open spec fn declared_count(b: BlockModel) -> Option<i64> {
    match b.cur_weapon {
        Some(WeaponKind::Missile) => b.missiles_count,
        Some(WeaponKind::Beam) => b.beams_count,
        _ => None,
    }
}

/// The table has all its arcs: as many as announced, or no count was
/// announced.
pub open spec fn section_full(b: BlockModel) -> bool {
    match declared_count(b) {
        None => true,
        Some(d) => (b.rows.arcs.len() as i64) >= d,
    }
}

/// A row of a weapon table; a `DPS:` row that completes the table closes
/// it.
pub open spec fn row_step(b: BlockModel, l: RowLabel, rest: Seq<char>) -> Option<BlockModel> {
    match row_tokens(l, rest) {
        None => None,
        Some(toks) => {
            let b1 = BlockModel { rows: extend_row(b.rows, l, toks), ..b };
            if l == RowLabel::Dps && section_full(b1) {
                Some(flush(b1))
            } else {
                Some(b1)
            }
        },
    }
}

pub open spec fn all_tildes(s: Seq<char>) -> bool {
    forall|i: int| 0 <= i < s.len() ==> #[trigger] s[i] == '~'
}

pub open spec fn tildes_and_space(s: Seq<char>) -> bool {
    forall|i: int| 0 <= i < s.len() ==> #[trigger] s[i] == '~' || is_ws(s[i])
}

/// A line after the art.
pub open spec fn sheet_line(b: BlockModel, line: Seq<char>) -> Option<BlockModel> {
    match header_captures(line, "Beams:"@) {
        Some((c, d)) => Some(beams_header(b, c, d)),
        None => match header_captures(line, "Missiles:"@) {
            Some((c, d)) => Some(missiles_header(b, c, d)),
            None => if b.cur_weapon is Some && row_captures(line) is Some {
                row_step(b, row_captures(line).unwrap().0, row_captures(line).unwrap().1)
            } else if b.cur_weapon is Some && tildes_and_space(line) {
                Some(b)
            } else {
                match apply_label(b.fields, line) {
                    None => None,
                    Some(f) => Some(BlockModel { fields: f, ..b }),
                }
            },
        },
    }
}

/// The sheet after one more line; `None` for a line the reader refuses.
///
/// In the art, a line of tildes ends the art, a labelled line ends it and
/// is read, and any other line is kept with its trailing whitespace
/// removed.
pub open spec fn parse_line(b: BlockModel, line: Seq<char>) -> Option<BlockModel> {
    if b.has_art {
        if trim(line).len() > 0 && all_tildes(trim(line)) {
            Some(BlockModel { has_art: false, ..b })
        } else if art_end_match(line) {
            sheet_line(BlockModel { has_art: false, ..b }, line)
        } else {
            Some(BlockModel { art_lines: b.art_lines.push(trim_end(line)), ..b })
        }
    } else {
        sheet_line(b, line)
    }
}

fn number_of(t: Vec<char>) -> (r: Option<Number>)
    ensures
        opt_number(r) == number_text(t@),
{
    Number::parse(t.as_slice())
}

impl ShipSpecBlock {
    pub fn new(dbref: i64, name: Vec<char>, category: Option<Vec<char>>) -> (r: ShipSpecBlock)
        ensures
            r@ == new_block(dbref, name@, opt_chars(category)),
    {
        let r = ShipSpecBlock {
            dbref,
            name,
            category,
            fields: SheetFields::new(),
            beams_count: None,
            beams_dps: None,
            missiles_count: None,
            missiles_dps: None,
            weapons: Vec::new(),
            cur_weapon: None,
            rows: WeaponRows::new(),
            complete: false,
            art_lines: Vec::new(),
            has_art: true,
        };
        assert(r@.weapons =~= Seq::<WeaponModel>::empty());
        assert(r@.art_lines =~= Seq::<Seq<char>>::empty());
        r
    }

    /// Close the current weapon table.
    fn flush_weapon_section(&mut self)
        ensures
            final(self)@ == flush(old(self)@),
    {
        let kind = match self.cur_weapon.take() {
            None => {
                self.rows = WeaponRows::new();
                return;
            },
            Some(k) => k,
        };
        let n = self.rows.count(RowLabel::Arcs);
        if n == 0 {
            self.rows = WeaponRows::new();
            return;
        }
        let ghost b1 = self@;
        let ghost old_weapons = weapon_models(self.weapons@);
        let ghost rows = self.rows@;
        let ghost kv = kind@;
        let mut i: usize = 0;
        while i < n
            invariant
                n == self.rows@.arcs.len(),
                rows == self.rows@,
                kv == kind@,
                i <= n,
                weapon_models(self.weapons@) == old_weapons + section_weapons(kv, rows).take(i as int),
                self@ == (BlockModel { weapons: weapon_models(self.weapons@), ..b1 }),
            decreases n - i,
        {
            let w = Weapon {
                weapon_type: kind.clone(),
                slot: (i + 1) as i64,
                cost: self.column(RowLabel::Cost, i),
                range: self.column(RowLabel::Range, i),
                arc: match self.rows.value(RowLabel::Arcs, i) {
                    Some(t) => string_of(t.as_slice()),
                    None => String::new(),
                },
                damage: self.column(RowLabel::Damage, i),
                recycle_time: self.column(RowLabel::Time, i),
                dps: self.column(RowLabel::Dps, i),
            };
            let ghost wv = w@;
            let ghost before = self.weapons@;
            assert(wv == section_weapon(kv, rows, i as int));
            self.weapons.push(w);
            assert(weapon_models(self.weapons@) =~= weapon_models(before).push(wv));
            assert(section_weapons(kv, rows).take(i + 1) =~= section_weapons(kv, rows).take(
                i as int,
            ).push(section_weapon(kv, rows, i as int)));
            assert(weapon_models(self.weapons@) =~= old_weapons + section_weapons(kv, rows).take(
                i + 1,
            ));
            i = i + 1;
        }
        assert(section_weapons(kv, rows).take(n as int) =~= section_weapons(kv, rows));
        match kind {
            WeaponType::Missile => {
                self.complete = true;
            },
            _ => {},
        }
        self.rows = WeaponRows::new();
    }

    /// The number in column `i` of a numeric row, or zero.
    fn column(&self, l: RowLabel, i: usize) -> (r: Number)
        requires
            l != RowLabel::Arcs,
        ensures
            r@ == weapon_col(
                match l {
                    RowLabel::Cost => self.rows@.cost,
                    RowLabel::Range => self.rows@.range,
                    RowLabel::Damage => self.rows@.damage,
                    RowLabel::Time => self.rows@.time,
                    _ => self.rows@.dps,
                },
                i as int,
            ),
    {
        match self.rows.value(l, i) {
            Some(t) => match Number::parse(t.as_slice()) {
                Some(x) => x,
                None => Number::zero(),
            },
            None => Number::zero(),
        }
    }

    fn beams_header(&mut self, count: Vec<char>, dps: Vec<char>)
        requires
            crate::number::all_digits(count@),
        ensures
            final(self)@ == beams_header(old(self)@, count@, dps@),
    {
        self.flush_weapon_section();
        self.beams_count = parse_i64_exec(count.as_slice());
        self.beams_dps = number_of(dps);
        self.cur_weapon = Some(WeaponType::Beam);
        self.rows = WeaponRows::new();
    }

    fn missiles_header(&mut self, count: Vec<char>, dps: Vec<char>)
        requires
            crate::number::all_digits(count@),
        ensures
            final(self)@ == missiles_header(old(self)@, count@, dps@),
    {
        self.flush_weapon_section();
        self.missiles_count = parse_i64_exec(count.as_slice());
        self.missiles_dps = number_of(dps);
        self.cur_weapon = Some(WeaponType::Missile);
        self.rows = WeaponRows::new();
    }

    fn row(&mut self, l: RowLabel, rest: Vec<char>) -> (ok: bool)
        ensures
            ok == row_step(old(self)@, l, rest@) is Some,
            ok ==> row_step(old(self)@, l, rest@) == Some(final(self)@),
    {
        let toks = if l == RowLabel::Arcs {
            match arc_chunks_exec(rest.as_slice()) {
                None => return false,
                Some(t) => t,
            }
        } else {
            let t = tokens_exec(rest.as_slice());
            assert(texts(t@) =~= tokens_from(rest@, 0));
            t
        };
        self.rows.extend(l, toks);
        if l == RowLabel::Dps {
            let declared = match &self.cur_weapon {
                Some(WeaponType::Missile) => self.missiles_count,
                Some(WeaponType::Beam) => self.beams_count,
                _ => None,
            };
            let have = self.rows.count(RowLabel::Arcs) as i64;
            let full = match declared {
                None => true,
                Some(d) => have >= d,
            };
            if full {
                self.flush_weapon_section();
            }
        }
        true
    }

    /// Read a line after the art.
    fn sheet_line(&mut self, line: &[char]) -> (ok: bool)
        ensures
            ok == sheet_line(old(self)@, line@) is Some,
            ok ==> sheet_line(old(self)@, line@) == Some(final(self)@),
    {
        if let Some((c, d)) = header_captures_exec(line, "Beams:") {
            self.beams_header(c, d);
            return true;
        }
        if let Some((c, d)) = header_captures_exec(line, "Missiles:") {
            self.missiles_header(c, d);
            return true;
        }
        if self.cur_weapon.is_some() {
            if let Some((l, rest)) = row_captures_exec(line) {
                return self.row(l, rest);
            }
            if tildes_and_space_exec(line) {
                return true;
            }
        }
        self.fields.apply_label_exec(line)
    }

    /// Read one more line of the sheet; false for a line the reader
    /// refuses.
    pub fn parse_line(&mut self, line: &[char]) -> (ok: bool)
        ensures
            ok == parse_line(old(self)@, line@) is Some,
            ok ==> parse_line(old(self)@, line@) == Some(final(self)@),
    {
        if self.has_art {
            let s = trim_exec(line);
            if s.len() > 0 && all_tildes_exec(s.as_slice()) {
                self.has_art = false;
                return true;
            }
            if art_end_match_exec(line) {
                self.has_art = false;
            } else {
                let kept = trim_end_exec_vec(line);
                self.art_lines.push(kept);
                assert(texts(self.art_lines@) =~= texts(old(self).art_lines@).push(trim_end(line@)));
                return true;
            }
        }
        self.sheet_line(line)
    }
}

fn all_tildes_exec(s: &[char]) -> (r: bool)
    ensures
        r == all_tildes(s@),
{
    let mut k: usize = 0;
    while k < s.len()
        invariant
            k <= s@.len(),
            forall|i: int| 0 <= i < k ==> #[trigger] s@[i] == '~',
        decreases s@.len() - k,
    {
        if s[k] != '~' {
            return false;
        }
        k = k + 1;
    }
    true
}

fn tildes_and_space_exec(s: &[char]) -> (r: bool)
    ensures
        r == tildes_and_space(s@),
{
    let mut k: usize = 0;
    while k < s.len()
        invariant
            k <= s@.len(),
            forall|i: int| 0 <= i < k ==> #[trigger] s@[i] == '~' || is_ws(s@[i]),
        decreases s@.len() - k,
    {
        if s[k] != '~' && !char_is_ws(s[k]) {
            assert(!(s@[k as int] == '~' || is_ws(s@[k as int])));
            return false;
        }
        k = k + 1;
    }
    true
}


// ---------------------------------------------------------------------
// The ship a sheet describes
// ---------------------------------------------------------------------

pub open spec fn or_zero(o: Option<Seq<char>>) -> Seq<char> {
    match o {
        Some(t) => t,
        None => seq!['0'],
    }
}

pub open spec fn or_empty(o: Option<Seq<char>>) -> Seq<char> {
    match o {
        Some(t) => t,
        None => Seq::empty(),
    }
}

pub open spec fn or_false(o: Option<bool>) -> bool {
    match o {
        Some(x) => x,
        None => false,
    }
}

pub open spec fn is_blank(l: Seq<char>) -> bool {
    trim(l).len() == 0
}

/// The lines without their leading blank lines.
pub open spec fn strip_front(lines: Seq<Seq<char>>) -> Seq<Seq<char>>
    decreases lines.len(),
{
    if lines.len() > 0 && is_blank(lines[0]) {
        strip_front(lines.skip(1))
    } else {
        lines
    }
}

/// The lines without their trailing blank lines.
pub open spec fn strip_back(lines: Seq<Seq<char>>) -> Seq<Seq<char>>
    decreases lines.len(),
{
    if lines.len() > 0 && is_blank(lines.last()) {
        strip_back(lines.drop_last())
    } else {
        lines
    }
}

/// The lines joined by line feeds.
pub open spec fn join_lines(t: Seq<Seq<char>>) -> Seq<char>
    decreases t.len(),
{
    if t.len() == 0 {
        Seq::empty()
    } else if t.len() == 1 {
        t[0]
    } else {
        join_lines(t.drop_last()) + seq!['\n'] + t.last()
    }
}

/// The ship's art: its lines without the blank ones around them, joined;
/// `None` when nothing is left.
pub open spec fn art_of(lines: Seq<Seq<char>>) -> Option<Seq<char>> {
    let t = strip_back(strip_front(lines));
    if t.len() == 0 {
        None
    } else {
        Some(join_lines(t))
    }
}

/// The ship a finished sheet describes: what was not read is zero, empty
/// or false, and the source is an upload.
pub open spec fn into_ship(b: BlockModel) -> ShipModel {
    ShipModel {
        dbref: b.dbref,
        name: b.name,
        category: b.category,
        art: art_of(b.art_lines),
        class: or_empty(b.fields.class),
        sensor_class: or_empty(b.fields.sensor_class),
        ship_type: or_empty(b.fields.ship_type),
        crew: or_zero(b.fields.crew),
        crew_tuned: b.fields.crew_tuned,
        quota: or_zero(b.fields.quota),
        cost: or_zero(b.fields.cost),
        structure: or_zero(b.fields.structure),
        repair: or_zero(b.fields.repair),
        mass: or_zero(b.fields.mass),
        bay: or_zero(b.fields.bay),
        cargo: or_zero(b.fields.cargo),
        has_land: or_false(b.fields.has_land),
        has_dock: or_false(b.fields.has_dock),
        can_land: or_false(b.fields.can_land),
        can_dock: or_false(b.fields.can_dock),
        firing: or_zero(b.fields.firing),
        stealth: or_zero(b.fields.stealth),
        sensors: or_zero(b.fields.sensors),
        cloak_eff: or_zero(b.fields.cloak_eff),
        cloak: b.fields.cloak,
        fuel_eff: or_zero(b.fields.fuel_eff),
        aux_max: or_zero(b.fields.aux_max),
        main_max: or_zero(b.fields.main_max),
        fuel_max: or_zero(b.fields.fuel_max),
        main: or_zero(b.fields.main),
        aux: or_zero(b.fields.aux),
        batt: or_zero(b.fields.batt),
        warp_cruise: b.fields.warp_cruise,
        warp_emer: b.fields.warp_emer,
        warp_max: b.fields.warp_max,
        warp_cruise_cost: b.fields.warp_cruise_cost,
        warp_emer_cost: b.fields.warp_emer_cost,
        warp_max_cost: b.fields.warp_max_cost,
        warp_type: b.fields.warp_type,
        imp_cruise: or_zero(b.fields.imp_cruise),
        imp_emer: or_zero(b.fields.imp_emer),
        imp_max: or_zero(b.fields.imp_max),
        imp_cruise_cost: or_zero(b.fields.imp_cruise_cost),
        imp_emer_cost: or_zero(b.fields.imp_emer_cost),
        imp_max_cost: or_zero(b.fields.imp_max_cost),
        armor: or_zero(b.fields.armor),
        shield_max: or_zero(b.fields.shield_max),
        shield_ratio: or_zero(b.fields.shield_ratio),
        shield_def_1x: or_zero(b.fields.shield_def_1x),
        shield_def_2x: or_zero(b.fields.shield_def_2x),
        shield_def_3x: or_zero(b.fields.shield_def_3x),
        shield_def_4x: or_zero(b.fields.shield_def_4x),
        shield_cost_1x: or_zero(b.fields.shield_cost_1x),
        shield_cost_2x: or_zero(b.fields.shield_cost_2x),
        shield_cost_3x: or_zero(b.fields.shield_cost_3x),
        shield_cost_4x: or_zero(b.fields.shield_cost_4x),
        move_ratio: or_zero(b.fields.move_ratio),
        lrs: or_false(b.fields.lrs),
        srs: or_false(b.fields.srs),
        ew: or_false(b.fields.ew),
        trans: or_false(b.fields.trans),
        tractor: or_false(b.fields.tractor),
        has_cloak: or_false(b.fields.has_cloak),
        beams_count: match b.beams_count {
            Some(v) => v,
            None => 0,
        },
        beams_dps: or_zero(b.beams_dps),
        missiles_count: b.missiles_count,
        missiles_dps: b.missiles_dps,
        weapons: b.weapons,
        source_log: Some("upload"@),
        source_line: None,
        parsed_at: None,
    }
}

/// The lines from `i` on lose no line to `strip_front` when every line
/// before `i` is blank and line `i`, if any, is not.
proof fn lemma_strip_front_at(lines: Seq<Seq<char>>, i: int)
    requires
        0 <= i <= lines.len(),
        forall|k: int| 0 <= k < i ==> #[trigger] is_blank(lines[k]),
        i < lines.len() ==> !is_blank(lines[i]),
    ensures
        strip_front(lines) == lines.skip(i),
    decreases lines.len(),
{
    if i == 0 {
        assert(lines.skip(0) =~= lines);
    } else {
        assert(is_blank(lines[0]));
        let rest = lines.skip(1);
        assert forall|k: int| 0 <= k < i - 1 implies #[trigger] is_blank(rest[k]) by {
            assert(is_blank(lines[k + 1]));
        }
        lemma_strip_front_at(rest, i - 1);
        assert(rest.skip(i - 1) =~= lines.skip(i));
    }
}

/// `strip_back` keeps the first `e` lines when every later line is blank
/// and line `e - 1`, if any, is not.
proof fn lemma_strip_back_at(lines: Seq<Seq<char>>, e: int)
    requires
        0 <= e <= lines.len(),
        forall|k: int| e <= k < lines.len() ==> #[trigger] is_blank(lines[k]),
        e > 0 ==> !is_blank(lines[e - 1]),
    ensures
        strip_back(lines) == lines.take(e),
    decreases lines.len(),
{
    if e == lines.len() {
        assert(lines.take(e) =~= lines);
    } else {
        assert(is_blank(lines[lines.len() - 1]));
        let rest = lines.drop_last();
        assert forall|k: int| e <= k < rest.len() implies #[trigger] is_blank(rest[k]) by {
            assert(is_blank(lines[k]));
        }
        lemma_strip_back_at(rest, e);
        assert(rest.take(e) =~= lines.take(e));
    }
}

/// `strip_front` leaves nothing exactly when every line is blank, and what
/// it leaves starts with a line that is not blank.
proof fn lemma_strip_front_empty(lines: Seq<Seq<char>>)
    ensures
        strip_front(lines).len() == 0 <==> (forall|k: int| 0 <= k < lines.len() ==> #[trigger] is_blank(lines[k])),
        strip_front(lines).len() > 0 ==> !is_blank(strip_front(lines)[0]),
    decreases lines.len(),
{
    if lines.len() > 0 && is_blank(lines[0]) {
        let rest = lines.skip(1);
        lemma_strip_front_empty(rest);
        if strip_front(rest).len() == 0 {
            assert forall|k: int| 0 <= k < lines.len() implies #[trigger] is_blank(lines[k]) by {
                if k > 0 {
                    assert(is_blank(rest[k - 1]));
                }
            }
        } else {
            let k = choose|k: int| 0 <= k < rest.len() && !is_blank(#[trigger] rest[k]);
            assert(!is_blank(lines[k + 1]));
        }
    } else if lines.len() > 0 {
        assert(!is_blank(lines[0]));
    }
}

/// `strip_back` leaves something of lines that start with a line that is
/// not blank.
proof fn lemma_strip_back_keeps_first(lines: Seq<Seq<char>>)
    requires
        lines.len() > 0,
        !is_blank(lines[0]),
    ensures
        strip_back(lines).len() > 0,
    decreases lines.len(),
{
    if is_blank(lines.last()) {
        lemma_strip_back_keeps_first(lines.drop_last());
    }
}

/// The ship of a finished sheet, in any state of the sheet: each value that
/// was not read takes its default (`0`, empty, false), and a value that was
/// read is kept; the warp values, the cloak and the missile count and rate
/// stay optional; the weapons, reference, name and category are the
/// sheet's; the source is an upload. Its art is `None` exactly when every
/// art line is blank, and otherwise the lines from the first that is not
/// blank to the last, joined by line feeds.
pub proof fn law_sheet_ship_takes_defaults(b: BlockModel)
    ensures
        b.fields.class is None ==> into_ship(b).class == Seq::<char>::empty(),
        b.fields.class is Some ==> into_ship(b).class == b.fields.class->0,
        b.fields.sensor_class is None ==> into_ship(b).sensor_class == Seq::<char>::empty(),
        b.fields.sensor_class is Some ==> into_ship(b).sensor_class == b.fields.sensor_class->0,
        b.fields.ship_type is None ==> into_ship(b).ship_type == Seq::<char>::empty(),
        b.fields.ship_type is Some ==> into_ship(b).ship_type == b.fields.ship_type->0,
        b.fields.crew is None ==> into_ship(b).crew == seq!['0'],
        b.fields.crew is Some ==> into_ship(b).crew == b.fields.crew->0,
        b.fields.quota is None ==> into_ship(b).quota == seq!['0'],
        b.fields.quota is Some ==> into_ship(b).quota == b.fields.quota->0,
        b.fields.cost is None ==> into_ship(b).cost == seq!['0'],
        b.fields.cost is Some ==> into_ship(b).cost == b.fields.cost->0,
        b.fields.structure is None ==> into_ship(b).structure == seq!['0'],
        b.fields.structure is Some ==> into_ship(b).structure == b.fields.structure->0,
        b.fields.repair is None ==> into_ship(b).repair == seq!['0'],
        b.fields.repair is Some ==> into_ship(b).repair == b.fields.repair->0,
        b.fields.mass is None ==> into_ship(b).mass == seq!['0'],
        b.fields.mass is Some ==> into_ship(b).mass == b.fields.mass->0,
        b.fields.bay is None ==> into_ship(b).bay == seq!['0'],
        b.fields.bay is Some ==> into_ship(b).bay == b.fields.bay->0,
        b.fields.cargo is None ==> into_ship(b).cargo == seq!['0'],
        b.fields.cargo is Some ==> into_ship(b).cargo == b.fields.cargo->0,
        b.fields.has_land is None ==> into_ship(b).has_land == false,
        b.fields.has_land is Some ==> into_ship(b).has_land == b.fields.has_land->0,
        b.fields.has_dock is None ==> into_ship(b).has_dock == false,
        b.fields.has_dock is Some ==> into_ship(b).has_dock == b.fields.has_dock->0,
        b.fields.can_land is None ==> into_ship(b).can_land == false,
        b.fields.can_land is Some ==> into_ship(b).can_land == b.fields.can_land->0,
        b.fields.can_dock is None ==> into_ship(b).can_dock == false,
        b.fields.can_dock is Some ==> into_ship(b).can_dock == b.fields.can_dock->0,
        b.fields.firing is None ==> into_ship(b).firing == seq!['0'],
        b.fields.firing is Some ==> into_ship(b).firing == b.fields.firing->0,
        b.fields.stealth is None ==> into_ship(b).stealth == seq!['0'],
        b.fields.stealth is Some ==> into_ship(b).stealth == b.fields.stealth->0,
        b.fields.sensors is None ==> into_ship(b).sensors == seq!['0'],
        b.fields.sensors is Some ==> into_ship(b).sensors == b.fields.sensors->0,
        b.fields.cloak_eff is None ==> into_ship(b).cloak_eff == seq!['0'],
        b.fields.cloak_eff is Some ==> into_ship(b).cloak_eff == b.fields.cloak_eff->0,
        b.fields.fuel_eff is None ==> into_ship(b).fuel_eff == seq!['0'],
        b.fields.fuel_eff is Some ==> into_ship(b).fuel_eff == b.fields.fuel_eff->0,
        b.fields.aux_max is None ==> into_ship(b).aux_max == seq!['0'],
        b.fields.aux_max is Some ==> into_ship(b).aux_max == b.fields.aux_max->0,
        b.fields.main_max is None ==> into_ship(b).main_max == seq!['0'],
        b.fields.main_max is Some ==> into_ship(b).main_max == b.fields.main_max->0,
        b.fields.fuel_max is None ==> into_ship(b).fuel_max == seq!['0'],
        b.fields.fuel_max is Some ==> into_ship(b).fuel_max == b.fields.fuel_max->0,
        b.fields.main is None ==> into_ship(b).main == seq!['0'],
        b.fields.main is Some ==> into_ship(b).main == b.fields.main->0,
        b.fields.aux is None ==> into_ship(b).aux == seq!['0'],
        b.fields.aux is Some ==> into_ship(b).aux == b.fields.aux->0,
        b.fields.batt is None ==> into_ship(b).batt == seq!['0'],
        b.fields.batt is Some ==> into_ship(b).batt == b.fields.batt->0,
        b.fields.imp_cruise is None ==> into_ship(b).imp_cruise == seq!['0'],
        b.fields.imp_cruise is Some ==> into_ship(b).imp_cruise == b.fields.imp_cruise->0,
        b.fields.imp_emer is None ==> into_ship(b).imp_emer == seq!['0'],
        b.fields.imp_emer is Some ==> into_ship(b).imp_emer == b.fields.imp_emer->0,
        b.fields.imp_max is None ==> into_ship(b).imp_max == seq!['0'],
        b.fields.imp_max is Some ==> into_ship(b).imp_max == b.fields.imp_max->0,
        b.fields.imp_cruise_cost is None ==> into_ship(b).imp_cruise_cost == seq!['0'],
        b.fields.imp_cruise_cost is Some ==> into_ship(b).imp_cruise_cost == b.fields.imp_cruise_cost->0,
        b.fields.imp_emer_cost is None ==> into_ship(b).imp_emer_cost == seq!['0'],
        b.fields.imp_emer_cost is Some ==> into_ship(b).imp_emer_cost == b.fields.imp_emer_cost->0,
        b.fields.imp_max_cost is None ==> into_ship(b).imp_max_cost == seq!['0'],
        b.fields.imp_max_cost is Some ==> into_ship(b).imp_max_cost == b.fields.imp_max_cost->0,
        b.fields.armor is None ==> into_ship(b).armor == seq!['0'],
        b.fields.armor is Some ==> into_ship(b).armor == b.fields.armor->0,
        b.fields.shield_max is None ==> into_ship(b).shield_max == seq!['0'],
        b.fields.shield_max is Some ==> into_ship(b).shield_max == b.fields.shield_max->0,
        b.fields.shield_ratio is None ==> into_ship(b).shield_ratio == seq!['0'],
        b.fields.shield_ratio is Some ==> into_ship(b).shield_ratio == b.fields.shield_ratio->0,
        b.fields.shield_def_1x is None ==> into_ship(b).shield_def_1x == seq!['0'],
        b.fields.shield_def_1x is Some ==> into_ship(b).shield_def_1x == b.fields.shield_def_1x->0,
        b.fields.shield_def_2x is None ==> into_ship(b).shield_def_2x == seq!['0'],
        b.fields.shield_def_2x is Some ==> into_ship(b).shield_def_2x == b.fields.shield_def_2x->0,
        b.fields.shield_def_3x is None ==> into_ship(b).shield_def_3x == seq!['0'],
        b.fields.shield_def_3x is Some ==> into_ship(b).shield_def_3x == b.fields.shield_def_3x->0,
        b.fields.shield_def_4x is None ==> into_ship(b).shield_def_4x == seq!['0'],
        b.fields.shield_def_4x is Some ==> into_ship(b).shield_def_4x == b.fields.shield_def_4x->0,
        b.fields.shield_cost_1x is None ==> into_ship(b).shield_cost_1x == seq!['0'],
        b.fields.shield_cost_1x is Some ==> into_ship(b).shield_cost_1x == b.fields.shield_cost_1x->0,
        b.fields.shield_cost_2x is None ==> into_ship(b).shield_cost_2x == seq!['0'],
        b.fields.shield_cost_2x is Some ==> into_ship(b).shield_cost_2x == b.fields.shield_cost_2x->0,
        b.fields.shield_cost_3x is None ==> into_ship(b).shield_cost_3x == seq!['0'],
        b.fields.shield_cost_3x is Some ==> into_ship(b).shield_cost_3x == b.fields.shield_cost_3x->0,
        b.fields.shield_cost_4x is None ==> into_ship(b).shield_cost_4x == seq!['0'],
        b.fields.shield_cost_4x is Some ==> into_ship(b).shield_cost_4x == b.fields.shield_cost_4x->0,
        b.fields.move_ratio is None ==> into_ship(b).move_ratio == seq!['0'],
        b.fields.move_ratio is Some ==> into_ship(b).move_ratio == b.fields.move_ratio->0,
        b.fields.lrs is None ==> into_ship(b).lrs == false,
        b.fields.lrs is Some ==> into_ship(b).lrs == b.fields.lrs->0,
        b.fields.srs is None ==> into_ship(b).srs == false,
        b.fields.srs is Some ==> into_ship(b).srs == b.fields.srs->0,
        b.fields.ew is None ==> into_ship(b).ew == false,
        b.fields.ew is Some ==> into_ship(b).ew == b.fields.ew->0,
        b.fields.trans is None ==> into_ship(b).trans == false,
        b.fields.trans is Some ==> into_ship(b).trans == b.fields.trans->0,
        b.fields.tractor is None ==> into_ship(b).tractor == false,
        b.fields.tractor is Some ==> into_ship(b).tractor == b.fields.tractor->0,
        b.fields.has_cloak is None ==> into_ship(b).has_cloak == false,
        b.fields.has_cloak is Some ==> into_ship(b).has_cloak == b.fields.has_cloak->0,
        b.beams_dps is None ==> into_ship(b).beams_dps == seq!['0'],
        b.beams_dps is Some ==> into_ship(b).beams_dps == b.beams_dps->0,
        b.beams_count is None ==> into_ship(b).beams_count == 0,
        b.beams_count is Some ==> into_ship(b).beams_count == b.beams_count->0,
        into_ship(b).warp_cruise == b.fields.warp_cruise,
        into_ship(b).warp_emer == b.fields.warp_emer,
        into_ship(b).warp_max == b.fields.warp_max,
        into_ship(b).warp_cruise_cost == b.fields.warp_cruise_cost,
        into_ship(b).warp_emer_cost == b.fields.warp_emer_cost,
        into_ship(b).warp_max_cost == b.fields.warp_max_cost,
        into_ship(b).warp_type == b.fields.warp_type,
        into_ship(b).cloak == b.fields.cloak,
        into_ship(b).missiles_count == b.missiles_count,
        into_ship(b).missiles_dps == b.missiles_dps,
        into_ship(b).weapons == b.weapons,
        into_ship(b).dbref == b.dbref,
        into_ship(b).name == b.name,
        into_ship(b).category == b.category,
        into_ship(b).source_log == Some("upload"@),
        into_ship(b).source_line is None,
        into_ship(b).parsed_at is None,
        into_ship(b).art is None <==> (forall|k: int| 0 <= k < b.art_lines.len() ==> #[trigger] is_blank(b.art_lines[k])),
        forall|i: int, j: int|
            #![trigger is_blank(b.art_lines[i]), is_blank(b.art_lines[j])]
            0 <= i <= j < b.art_lines.len() && !is_blank(b.art_lines[i]) && !is_blank(b.art_lines[j])
                && (forall|k: int| 0 <= k < i ==> #[trigger] is_blank(b.art_lines[k]))
                && (forall|k: int| j < k < b.art_lines.len() ==> #[trigger] is_blank(b.art_lines[k]))
                ==> into_ship(b).art == Some(join_lines(b.art_lines.subrange(i, j + 1))),
{
    let lines = b.art_lines;
    lemma_strip_front_empty(lines);
    let f = strip_front(lines);
    if f.len() > 0 {
        lemma_strip_back_keeps_first(f);
    }
    assert forall|i: int, j: int|
        #![trigger is_blank(lines[i]), is_blank(lines[j])]
        0 <= i <= j < lines.len() && !is_blank(lines[i]) && !is_blank(lines[j])
            && (forall|k: int| 0 <= k < i ==> #[trigger] is_blank(lines[k]))
            && (forall|k: int| j < k < lines.len() ==> #[trigger] is_blank(lines[k]))
            implies art_of(lines) == Some(join_lines(lines.subrange(i, j + 1))) by {
        lemma_strip_front_at(lines, i);
        let t = lines.skip(i);
        assert forall|k: int| j - i + 1 <= k < t.len() implies #[trigger] is_blank(t[k]) by {
            assert(is_blank(lines[i + k]));
        }
        assert(t[j - i] == lines[j]);
        lemma_strip_back_at(t, j - i + 1);
        assert(t.take(j - i + 1) =~= lines.subrange(i, j + 1));
    }
}

fn num_or_zero(o: Option<Number>) -> (r: Number)
    ensures
        r@ == or_zero(opt_number(o)),
{
    match o {
        Some(n) => n,
        None => Number::zero(),
    }
}

fn keep_number(o: Option<Number>) -> (r: Option<Number>)
    ensures
        r.deep_view() == opt_number(o),
{
    o
}

fn text_or_empty(o: Option<Vec<char>>) -> (r: String)
    ensures
        r@ == or_empty(opt_chars(o)),
{
    match o {
        Some(v) => string_of(v.as_slice()),
        None => String::new(),
    }
}

fn opt_string(o: Option<Vec<char>>) -> (r: Option<String>)
    ensures
        r.deep_view() == opt_chars(o),
{
    match o {
        Some(v) => Some(string_of(v.as_slice())),
        None => None,
    }
}

fn or_false_exec(o: Option<bool>) -> (r: bool)
    ensures
        r == or_false(o),
{
    match o {
        Some(x) => x,
        None => false,
    }
}

/// Append every char of `src` to `dst`.
fn push_all(dst: &mut Vec<char>, src: &[char])
    ensures
        final(dst)@ == old(dst)@ + src@,
{
    let mut k: usize = 0;
    while k < src.len()
        invariant
            k <= src@.len(),
            dst@ == old(dst)@ + src@.take(k as int),
        decreases src@.len() - k,
    {
        dst.push(src[k]);
        k = k + 1;
        assert(dst@ =~= old(dst)@ + src@.take(k as int));
    }
    assert(src@.take(src@.len() as int) =~= src@);
}

fn is_blank_exec(l: &Vec<char>) -> (r: bool)
    ensures
        r == is_blank(l@),
{
    trim_exec(l.as_slice()).len() == 0
}

/// The ship's art from its kept lines.
fn art_text(lines: &Vec<Vec<char>>) -> (r: Option<String>)
    ensures
        r.deep_view() == art_of(texts(lines@)),
{
    let ghost ls = texts(lines@);
    let n = lines.len();
    let mut lo: usize = 0;
    assert(ls.skip(0) =~= ls);
    while lo < n && is_blank_exec(&lines[lo])
        invariant
            ls == texts(lines@),
            n == lines@.len(),
            lo <= n,
            strip_front(ls.skip(lo as int)) == strip_front(ls),
        decreases n - lo,
    {
        assert(ls.skip(lo as int).skip(1) =~= ls.skip(lo + 1));
        assert(ls.skip(lo as int)[0] == ls[lo as int]);
        lo = lo + 1;
    }
    if lo < n {
        assert(ls.skip(lo as int)[0] == ls[lo as int]);
    }
    assert(strip_front(ls.skip(lo as int)) == ls.skip(lo as int));
    let mut hi: usize = n;
    assert(ls.subrange(lo as int, n as int) =~= ls.skip(lo as int));
    while hi > lo && is_blank_exec(&lines[hi - 1])
        invariant
            ls == texts(lines@),
            n == lines@.len(),
            lo <= hi <= n,
            strip_back(ls.subrange(lo as int, hi as int)) == strip_back(strip_front(ls)),
        decreases hi,
    {
        assert(ls.subrange(lo as int, hi as int).drop_last() =~= ls.subrange(lo as int, hi - 1));
        assert(ls.subrange(lo as int, hi as int).last() == ls[hi - 1]);
        hi = hi - 1;
    }
    if hi > lo {
        assert(ls.subrange(lo as int, hi as int).last() == ls[hi - 1]);
    }
    assert(strip_back(ls.subrange(lo as int, hi as int)) == ls.subrange(lo as int, hi as int));
    if hi == lo {
        return None;
    }
    let mut acc: Vec<char> = Vec::new();
    let mut k: usize = lo;
    while k < hi
        invariant
            ls == texts(lines@),
            n == lines@.len(),
            lo <= k <= hi <= n,
            acc@ == join_lines(ls.subrange(lo as int, k as int)),
        decreases hi - k,
    {
        let ghost t = ls.subrange(lo as int, k + 1);
        assert(t.drop_last() =~= ls.subrange(lo as int, k as int));
        assert(t.last() == ls[k as int]);
        if k > lo {
            acc.push('\n');
        }
        push_all(&mut acc, lines[k].as_slice());
        assert(acc@ =~= join_lines(t));
        k = k + 1;
    }
    Some(string_of(acc.as_slice()))
}

/// A sheet that gives a ship: it has a structure, a beam count and a
/// category.
pub open spec fn is_valid(b: BlockModel) -> bool {
    b.fields.structure is Some && b.beams_count is Some && b.category is Some
}

impl ShipSpecBlock {
    fn is_valid(&self) -> (r: bool)
        ensures
            r == is_valid(self@),
    {
        self.fields.structure.is_some() && self.beams_count.is_some() && self.category.is_some()
    }

    /// The ship this finished sheet describes.
    fn into_ship(self) -> (s: Ship)
        ensures
            s@ == into_ship(self@),
    {
        let art = art_text(&self.art_lines);
        let f = self.fields;
        let s = Ship {
            dbref: self.dbref,
            name: string_of(self.name.as_slice()),
            category: opt_string(self.category),
            art,
            class: text_or_empty(f.class),
            sensor_class: text_or_empty(f.sensor_class),
            ship_type: text_or_empty(f.ship_type),
            crew: num_or_zero(f.crew),
            crew_tuned: f.crew_tuned,
            quota: num_or_zero(f.quota),
            cost: num_or_zero(f.cost),
            structure: num_or_zero(f.structure),
            repair: num_or_zero(f.repair),
            mass: num_or_zero(f.mass),
            bay: num_or_zero(f.bay),
            cargo: num_or_zero(f.cargo),
            has_land: or_false_exec(f.has_land),
            has_dock: or_false_exec(f.has_dock),
            can_land: or_false_exec(f.can_land),
            can_dock: or_false_exec(f.can_dock),
            firing: num_or_zero(f.firing),
            stealth: num_or_zero(f.stealth),
            sensors: num_or_zero(f.sensors),
            cloak_eff: num_or_zero(f.cloak_eff),
            cloak: keep_number(f.cloak),
            fuel_eff: num_or_zero(f.fuel_eff),
            aux_max: num_or_zero(f.aux_max),
            main_max: num_or_zero(f.main_max),
            fuel_max: num_or_zero(f.fuel_max),
            main: num_or_zero(f.main),
            aux: num_or_zero(f.aux),
            batt: num_or_zero(f.batt),
            warp_cruise: keep_number(f.warp_cruise),
            warp_emer: keep_number(f.warp_emer),
            warp_max: keep_number(f.warp_max),
            warp_cruise_cost: keep_number(f.warp_cruise_cost),
            warp_emer_cost: keep_number(f.warp_emer_cost),
            warp_max_cost: keep_number(f.warp_max_cost),
            warp_type: opt_string(f.warp_type),
            imp_cruise: num_or_zero(f.imp_cruise),
            imp_emer: num_or_zero(f.imp_emer),
            imp_max: num_or_zero(f.imp_max),
            imp_cruise_cost: num_or_zero(f.imp_cruise_cost),
            imp_emer_cost: num_or_zero(f.imp_emer_cost),
            imp_max_cost: num_or_zero(f.imp_max_cost),
            armor: num_or_zero(f.armor),
            shield_max: num_or_zero(f.shield_max),
            shield_ratio: num_or_zero(f.shield_ratio),
            shield_def_1x: num_or_zero(f.shield_def_1x),
            shield_def_2x: num_or_zero(f.shield_def_2x),
            shield_def_3x: num_or_zero(f.shield_def_3x),
            shield_def_4x: num_or_zero(f.shield_def_4x),
            shield_cost_1x: num_or_zero(f.shield_cost_1x),
            shield_cost_2x: num_or_zero(f.shield_cost_2x),
            shield_cost_3x: num_or_zero(f.shield_cost_3x),
            shield_cost_4x: num_or_zero(f.shield_cost_4x),
            move_ratio: num_or_zero(f.move_ratio),
            lrs: or_false_exec(f.lrs),
            srs: or_false_exec(f.srs),
            ew: or_false_exec(f.ew),
            trans: or_false_exec(f.trans),
            tractor: or_false_exec(f.tractor),
            has_cloak: or_false_exec(f.has_cloak),
            beams_count: match self.beams_count {
                Some(v) => v,
                None => 0,
            },
            beams_dps: num_or_zero(self.beams_dps),
            missiles_count: self.missiles_count,
            missiles_dps: keep_number(self.missiles_dps),
            weapons: self.weapons,
            source_log: Some("upload".to_owned()),
            source_line: None,
            parsed_at: None,
        };
        assert(s@.weapons =~= into_ship(self@).weapons);
        s
    }
}

// ---------------------------------------------------------------------
// Titles
// ---------------------------------------------------------------------

/// The last index holding `c`.
pub open spec fn last_index_of(s: Seq<char>, c: char) -> Option<int>
    decreases s.len(),
{
    if s.len() == 0 {
        None
    } else if s.last() == c {
        Some(s.len() - 1)
    } else {
        last_index_of(s.drop_last(), c)
    }
}

/// The name and category of a title's inner text: a category is the text
/// in the last parentheses closing the title, when it holds no other
/// parenthesis.
pub open spec fn title_parts(inner: Seq<char>) -> (Option<Seq<char>>, Seq<char>) {
    if inner.len() > 0 && inner.last() == ')' {
        match last_index_of(inner, '(') {
            Some(open) => {
                let cat = inner.subrange(open + 1, inner.len() - 1);
                if !cat.contains('(') && !cat.contains(')') {
                    (Some(trim(cat)), trim(inner.take(open)))
                } else {
                    (None, trim(inner))
                }
            },
            None => (None, trim(inner)),
        }
    } else {
        (None, trim(inner))
    }
}

proof fn lemma_last_index_of(s: Seq<char>, c: char)
    ensures
        last_index_of(s, c) matches Some(k) ==> 0 <= k < s.len() && s[k] == c,
    decreases s.len(),
{
    if s.len() > 0 && s.last() != c {
        lemma_last_index_of(s.drop_last(), c);
    }
}

fn last_index_of_exec(s: &[char], c: char) -> (r: Option<usize>)
    ensures
        r is Some <==> last_index_of(s@, c) is Some,
        r matches Some(k) ==> last_index_of(s@, c) == Some(k as int),
{
    let mut k = s.len();
    assert(s@.take(k as int) =~= s@);
    while k > 0
        invariant
            k <= s@.len(),
            last_index_of(s@.take(k as int), c) == last_index_of(s@, c),
        decreases k,
    {
        assert(s@.take(k as int).last() == s@[k - 1]);
        if s[k - 1] == c {
            return Some(k - 1);
        }
        assert(s@.take(k as int).drop_last() =~= s@.take(k - 1));
        k = k - 1;
    }
    None
}

fn contains_char(s: &[char], c: char) -> (r: bool)
    ensures
        r == s@.contains(c),
{
    let mut k: usize = 0;
    while k < s.len()
        invariant
            k <= s@.len(),
            forall|i: int| 0 <= i < k ==> s@[i] != c,
        decreases s@.len() - k,
    {
        if s[k] == c {
            assert(s@[k as int] == c);
            return true;
        }
        k = k + 1;
    }
    false
}

proof fn lemma_last_open_is_after_prefix(pre: Seq<char>, x: Seq<char>)
    requires
        !x.contains('('),
    ensures
        last_index_of(pre + seq!['('] + x + seq![')'], '(') == Some(pre.len() as int),
{
    let s = pre + seq!['('] + x + seq![')'];
    let t = s.drop_last();
    assert(t =~= pre + seq!['('] + x);
    lemma_last_open_skips_tail(pre + seq!['('], x);
}

proof fn lemma_last_open_skips_tail(h: Seq<char>, x: Seq<char>)
    requires
        h.len() > 0,
        h.last() == '(',
        !x.contains('('),
    ensures
        last_index_of(h + x, '(') == Some(h.len() - 1),
    decreases x.len(),
{
    if x.len() == 0 {
        assert(h + x =~= h);
    } else {
        assert((h + x).last() == x.last());
        if x.last() == '(' {
            assert(x.contains('('));
        }
        assert((h + x).drop_last() =~= h + x.drop_last());
        assert(!x.drop_last().contains('(')) by {
            if x.drop_last().contains('(') {
                let i = choose|i: int| 0 <= i < x.drop_last().len() && x.drop_last()[i] == '(';
                assert(x[i] == '(');
            }
        }
        lemma_last_open_skips_tail(h, x.drop_last());
    }
}

proof fn lemma_no_open_none(s: Seq<char>)
    requires
        !s.contains('('),
    ensures
        last_index_of(s, '(') is None,
    decreases s.len(),
{
    if s.len() > 0 {
        if s.last() == '(' {
            assert(s.contains('('));
        }
        assert(!s.drop_last().contains('(')) by {
            if s.drop_last().contains('(') {
                let i = choose|i: int| 0 <= i < s.drop_last().len() && s.drop_last()[i] == '(';
                assert(s[i] == '(');
            }
        }
        lemma_no_open_none(s.drop_last());
    }
}

/// A title names its category in the last parentheses that close it: for
/// inner text `pre(x)` where `x` holds no `(`, the category is `x` trimmed
/// and the name is `pre` trimmed, whatever parentheses `pre` holds, unless
/// `x` holds a `)`, when there is no category. Inner text that does not
/// end with `)`, or holds no `(`, has no category, and all of it, trimmed,
/// is the name.
pub proof fn law_category_is_in_the_last_parentheses(pre: Seq<char>, x: Seq<char>, other: Seq<char>)
    requires
        !x.contains('('),
    ensures
        !x.contains(')') ==> title_parts(pre + seq!['('] + x + seq![')']) == (Some(trim(x)), trim(pre)),
        x.contains(')') ==> title_parts(pre + seq!['('] + x + seq![')']) == (
            None::<Seq<char>>,
            trim(pre + seq!['('] + x + seq![')']),
        ),
        other.len() == 0 || other.last() != ')' ==> title_parts(other) == (None::<Seq<char>>, trim(other)),
        !other.contains('(') ==> title_parts(other) == (None::<Seq<char>>, trim(other)),
{
    let s = pre + seq!['('] + x + seq![')'];
    lemma_last_open_is_after_prefix(pre, x);
    assert(s.subrange(pre.len() + 1int, s.len() - 1int) =~= x);
    assert(s.take(pre.len() as int) =~= pre);
    lemma_no_open_none_if(other);
}

proof fn lemma_no_open_none_if(s: Seq<char>)
    ensures
        !s.contains('(') ==> last_index_of(s, '(') is None,
{
    if !s.contains('(') {
        lemma_no_open_none(s);
    }
}

/// The category and name of a title's inner text.
pub fn title_parts_exec(inner: &[char]) -> (r: (Option<Vec<char>>, Vec<char>))
    ensures
        (opt_chars(r.0), r.1@) == title_parts(inner@),
{
    let n = inner.len();
    if n > 0 && inner[n - 1] == ')' {
        proof {
            lemma_last_index_of(inner@, '(');
        }
        match last_index_of_exec(inner, '(') {
            Some(open) => {
                let cat = sub_vec(inner, open + 1, n - 1);
                if !contains_char(cat.as_slice(), '(') && !contains_char(cat.as_slice(), ')') {
                    let head = sub_vec(inner, 0, open);
                    assert(head@ =~= inner@.take(open as int));
                    return (Some(trim_exec(cat.as_slice())), trim_exec(head.as_slice()));
                }
            },
            None => {},
        }
    }
    (None, trim_exec(inner))
}

/// A title line: one whose first non-blank char is a tilde and whose
/// trimmed text matches the title bar; its inner text and reference.
pub open spec fn title_line(line: Seq<char>) -> Option<(Seq<char>, Seq<char>)> {
    if starts_with(trim_start(line), seq!['~']) {
        title_captures(trim(line))
    } else {
        None
    }
}

proof fn lemma_trim_single(s: Seq<char>)
    requires
        single_line(s),
    ensures
        single_line(trim(s)),
{
    lemma_skip_ws_bounds(s, 0);
    let a = skip_ws(s, 0);
    let t = trim_start(s);
    lemma_trim_end_bounds(t, t.len() as int);
    assert forall|i: int| 0 <= i < trim(s).len() implies #[trigger] trim(s)[i] != '\n' by {
        assert(trim(s)[i] == t[i]);
        assert(t[i] == s[a + i]);
    }
}

fn title_line_exec(line: &[char]) -> (r: Option<(Vec<char>, Vec<char>)>)
    requires
        single_line(line@),
    ensures
        r is Some <==> title_line(line@) is Some,
        r matches Some((inner, d)) ==> title_line(line@) == Some((inner@, d@)),
        r matches Some((inner, d)) ==> crate::number::all_digits(d@),
{
    let ts = trim_start_exec(line);
    if ts.len() > 0 && ts[0] == '~' {
        assert(ts@.subrange(0, 1) =~= seq!['~']);
        let t = trim_exec(line);
        proof {
            lemma_trim_single(line@);
        }
        title_captures_exec(t.as_slice())
    } else {
        proof {
            if ts@.len() > 0 {
                assert(ts@.subrange(0, 1)[0] == ts@[0]);
            }
        }
        None
    }
}

// ---------------------------------------------------------------------
// Reading a log
// ---------------------------------------------------------------------

/// The ships read so far and the sheet being read.
pub struct ParseState {
    pub ships: Seq<ShipModel>,
    pub block: Option<BlockModel>,
}

/// The ships after the sheet being read ends: its weapon table is closed,
/// and it adds a ship when it is a valid sheet.
pub open spec fn finish_block(ships: Seq<ShipModel>, block: Option<BlockModel>) -> Seq<ShipModel> {
    match block {
        None => ships,
        Some(b) => if is_valid(flush(b)) {
            ships.push(into_ship(flush(b)))
        } else {
            ships
        },
    }
}

/// The reference number of a title: its digits, or zero when they do not
/// fit.
pub open spec fn dbref_of(d: Seq<char>) -> i64 {
    match parse_i64_digits(d) {
        Some(v) => v,
        None => 0,
    }
}

/// One more line of the log: a title ends the sheet being read and starts
/// a new one; any other line goes to the sheet being read, unless it is
/// complete. `None` for a line the reader refuses.
pub open spec fn feed(st: ParseState, line: Seq<char>) -> Option<ParseState> {
    match title_line(line) {
        Some((inner, digits)) => Some(
            ParseState {
                ships: finish_block(st.ships, st.block),
                block: Some(new_block(dbref_of(digits), title_parts(inner).1, title_parts(inner).0)),
            },
        ),
        None => match st.block {
            Some(b) => if b.complete {
                Some(st)
            } else {
                match parse_line(b, line) {
                    None => None,
                    Some(b2) => Some(ParseState { ships: st.ships, block: Some(b2) }),
                }
            },
            None => Some(st),
        },
    }
}

pub open spec fn feed_all(st: ParseState, lines: Seq<Seq<char>>) -> Option<ParseState>
    decreases lines.len(),
{
    if lines.len() == 0 {
        Some(st)
    } else {
        match feed(st, lines[0]) {
            None => None,
            Some(s) => feed_all(s, lines.skip(1)),
        }
    }
}

pub open spec fn start_state() -> ParseState {
    ParseState { ships: Seq::empty(), block: None }
}

/// The ships of every sheet in a log, in order; `None` for a log the
/// reader refuses: one with an arcs row whose six-byte columns cut a
/// character, or with a `Cost` line outside a drive's costs.
pub open spec fn ships_in_log(text: Seq<u8>) -> Option<Seq<ShipModel>> {
    ships_of_lines(lines_from(text, 0))
}

/// The ships of every sheet in a list of lines, in order.
pub open spec fn ships_of_lines(lines: Seq<Seq<char>>) -> Option<Seq<ShipModel>> {
    match feed_all(start_state(), lines) {
        None => None,
        Some(st) => Some(finish_block(st.ships, st.block)),
    }
}

pub open spec fn ship_models(v: Seq<Ship>) -> Seq<ShipModel> {
    v.map_values(|s: Ship| s@)
}

pub open spec fn opt_block(o: Option<ShipSpecBlock>) -> Option<BlockModel> {
    match o {
        Some(b) => Some(b@),
        None => None,
    }
}

/// End the sheet being read.
fn finish_ship(block: Option<ShipSpecBlock>, out: &mut Vec<Ship>)
    ensures
        ship_models(final(out)@) == finish_block(ship_models(old(out)@), opt_block(block)),
{
    if let Some(b) = block {
        let mut b = b;
        b.flush_weapon_section();
        if b.is_valid() {
            let ghost before = out@;
            let s = b.into_ship();
            let ghost sv = s@;
            out.push(s);
            assert(ship_models(out@) =~= ship_models(before).push(sv));
        }
    }
}

/// Read the ships of every sheet in a log; `None` for a log the reader
/// refuses.
pub fn try_parse_logs(text: &[u8]) -> (r: Option<Vec<Ship>>)
    ensures
        r is Some <==> ships_in_log(text@) is Some,
        r matches Some(v) ==> ships_in_log(text@) == Some(ship_models(v@)),
{
    let lines = get_lines_memchr(text);
    let ghost ls = lines_from(text@, 0);
    proof {
        law_lines_hold_no_line_breaks(text@, 0);
        assert forall|i: int| 0 <= i < ls.len() implies single_line(#[trigger] ls[i]) by {
            assert(no_line_breaks(ls[i]));
        }
    }
    let mut ships: Vec<Ship> = Vec::new();
    let mut block: Option<ShipSpecBlock> = None;
    let mut k: usize = 0;
    assert(ship_models(ships@) =~= Seq::<ShipModel>::empty());
    assert(ls.skip(0) =~= ls);
    while k < lines.len()
        invariant
            ls == lines_from(text@, 0),
            lines@.len() == ls.len(),
            forall|i: int| 0 <= i < ls.len() ==> #[trigger] lines@[i]@ == ls[i],
            forall|i: int| 0 <= i < ls.len() ==> single_line(#[trigger] ls[i]),
            k <= lines@.len(),
            feed_all(ParseState { ships: ship_models(ships@), block: opt_block(block) }, ls.skip(k as int))
                == feed_all(start_state(), ls),
        decreases lines@.len() - k,
    {
        let line = chars_of(lines[k].as_str());
        assert(ls.skip(k as int)[0] == ls[k as int]);
        assert(ls.skip(k as int).skip(1) =~= ls.skip(k + 1));
        assert(line@ == ls[k as int]);
        match title_line_exec(line.as_slice()) {
            Some((inner, digits)) => {
                finish_ship(block, &mut ships);
                let dbref = match parse_i64_exec(digits.as_slice()) {
                    Some(v) => v,
                    None => 0,
                };
                let (cat, name) = title_parts_exec(inner.as_slice());
                block = Some(ShipSpecBlock::new(dbref, name, cat));
            },
            None => {
                block = match block {
                    Some(b) => {
                        let mut b = b;
                        if !b.complete {
                            if !b.parse_line(line.as_slice()) {
                                return None;
                            }
                        }
                        Some(b)
                    },
                    None => None,
                };
            },
        }
        k = k + 1;
    }
    assert(ls.skip(k as int) =~= Seq::<Seq<char>>::empty());
    finish_ship(block, &mut ships);
    Some(ships)
}

/// Read the ships of every sheet in a log, in order.
pub fn parse_logs(text: &[u8]) -> (r: Vec<Ship>)
    requires
        ships_in_log(text@) is Some,
    ensures
        ships_in_log(text@) == Some(ship_models(r@)),
{
    try_parse_logs(text).unwrap()
}

/// Every ship in the list has a category.
pub open spec fn all_categorized(ships: Seq<ShipModel>) -> bool {
    forall|i: int| 0 <= i < ships.len() ==> (#[trigger] ships[i]).category is Some
}

proof fn lemma_finish_keeps_categories(ships: Seq<ShipModel>, block: Option<BlockModel>)
    requires
        all_categorized(ships),
    ensures
        all_categorized(finish_block(ships, block)),
{
    if let Some(b) = block {
        if is_valid(flush(b)) {
            let out = ships.push(into_ship(flush(b)));
            assert forall|i: int| 0 <= i < out.len() implies (#[trigger] out[i]).category is Some by {
                if i < ships.len() {
                    assert(out[i] == ships[i]);
                }
            }
        }
    }
}

proof fn lemma_feed_all_keeps_categories(st: ParseState, lines: Seq<Seq<char>>)
    requires
        all_categorized(st.ships),
    ensures
        feed_all(st, lines) matches Some(end) ==> all_categorized(end.ships),
    decreases lines.len(),
{
    if lines.len() > 0 {
        match feed(st, lines[0]) {
            None => {},
            Some(next) => {
                lemma_finish_keeps_categories(st.ships, st.block);
                lemma_feed_all_keeps_categories(next, lines.skip(1));
            },
        }
    }
}

/// Only a sheet with a category gives a ship: a sheet whose title has no
/// category in parentheses, such as that of a player's own tuned ship, is
/// left out.
pub proof fn law_every_ship_has_a_category(text: Seq<u8>)
    ensures
        ships_in_log(text) matches Some(ships) ==> all_categorized(ships),
{
    let start = start_state();
    assert(all_categorized(start.ships));
    lemma_feed_all_keeps_categories(start, lines_from(text, 0));
    if let Some(end) = feed_all(start, lines_from(text, 0)) {
        lemma_finish_keeps_categories(end.ships, end.block);
    }
}

proof fn lemma_untitled_lines_change_nothing(lines: Seq<Seq<char>>)
    requires
        forall|i: int| 0 <= i < lines.len() ==> title_line(#[trigger] lines[i]) is None,
    ensures
        feed_all(start_state(), lines) == Some(start_state()),
    decreases lines.len(),
{
    if lines.len() > 0 {
        assert(title_line(lines[0]) is None);
        let rest = lines.skip(1);
        assert forall|i: int| 0 <= i < rest.len() implies title_line(#[trigger] rest[i]) is None by {
            assert(rest[i] == lines[i + 1]);
        }
        lemma_untitled_lines_change_nothing(rest);
    }
}

/// Everything outside a sheet is ignored: a log in which no line is a
/// sheet's title bar gives no ships, whatever else it holds.
pub proof fn law_log_without_sheets_gives_no_ships(text: Seq<u8>)
    requires
        forall|i: int|
            0 <= i < lines_from(text, 0).len() ==> title_line(#[trigger] lines_from(text, 0)[i])
                is None,
    ensures
        ships_in_log(text) == Some(Seq::<ShipModel>::empty()),
{
    lemma_untitled_lines_change_nothing(lines_from(text, 0));
}

/// Lines before a log's first sheet are ignored: however many untitled
/// lines come first, reading the rest gives the same.
pub proof fn law_lines_before_first_sheet_are_ignored(pre: Seq<Seq<char>>, rest: Seq<Seq<char>>)
    requires
        forall|i: int| 0 <= i < pre.len() ==> title_line(#[trigger] pre[i]) is None,
    ensures
        feed_all(start_state(), pre + rest) == feed_all(start_state(), rest),
    decreases pre.len(),
{
    if pre.len() > 0 {
        let all = pre + rest;
        assert(all[0] == pre[0]);
        assert(title_line(pre[0]) is None);
        let tail = pre.skip(1);
        assert forall|i: int| 0 <= i < tail.len() implies title_line(#[trigger] tail[i]) is None by {
            assert(tail[i] == pre[i + 1]);
        }
        assert(all.skip(1) =~= tail + rest);
        law_lines_before_first_sheet_are_ignored(tail, rest);
    } else {
        assert(pre + rest =~= rest);
    }
}

proof fn lemma_feed_all_append(st: ParseState, a: Seq<Seq<char>>, b: Seq<Seq<char>>)
    ensures
        feed_all(st, a + b) == match feed_all(st, a) {
            None => None,
            Some(mid) => feed_all(mid, b),
        },
    decreases a.len(),
{
    if a.len() == 0 {
        assert(a + b =~= b);
    } else {
        assert((a + b)[0] == a[0]);
        assert((a + b).skip(1) =~= a.skip(1) + b);
        match feed(st, a[0]) {
            None => {},
            Some(next) => lemma_feed_all_append(next, a.skip(1), b),
        }
    }
}

/// The state with `pre` before its ships.
pub open spec fn with_ships_before(pre: Seq<ShipModel>, st: ParseState) -> ParseState {
    ParseState { ships: pre + st.ships, block: st.block }
}

proof fn lemma_ships_before_are_kept(pre: Seq<ShipModel>, st: ParseState, lines: Seq<Seq<char>>)
    ensures
        feed_all(with_ships_before(pre, st), lines) == match feed_all(st, lines) {
            None => None,
            Some(end) => Some(with_ships_before(pre, end)),
        },
    decreases lines.len(),
{
    if lines.len() > 0 {
        let line = lines[0];
        let big = with_ships_before(pre, st);
        match title_line(line) {
            Some(_) => {
                match st.block {
                    Some(b) => {
                        if is_valid(flush(b)) {
                            assert(finish_block(pre + st.ships, st.block) =~= pre + finish_block(
                                st.ships,
                                st.block,
                            ));
                        }
                    },
                    None => {},
                }
                assert(finish_block(big.ships, big.block) == pre + finish_block(st.ships, st.block));
                let next = feed(st, line).unwrap();
                assert(feed(big, line) == Some(with_ships_before(pre, next)));
                lemma_ships_before_are_kept(pre, next, lines.skip(1));
            },
            None => {
                match feed(st, line) {
                    None => {},
                    Some(next) => {
                        assert(feed(big, line) == Some(with_ships_before(pre, next)));
                        lemma_ships_before_are_kept(pre, next, lines.skip(1));
                    },
                }
            },
        }
    }
}

/// Sheets are read independently: the ships of some lines followed by
/// lines that start with a sheet's title are the ships of the first part
/// followed by those of the second. A log may hold any number of sheets,
/// and several logs read one after the other give the ships of each.
pub proof fn law_sheets_are_read_independently(l1: Seq<Seq<char>>, l2: Seq<Seq<char>>)
    requires
        l2.len() > 0,
        title_line(l2[0]) is Some,
    ensures
        ships_of_lines(l1 + l2) == match (ships_of_lines(l1), ships_of_lines(l2)) {
            (Some(a), Some(b)) => Some(a + b),
            _ => None,
        },
{
    lemma_feed_all_append(start_state(), l1, l2);
    match feed_all(start_state(), l1) {
        None => {},
        Some(mid) => {
            let a = finish_block(mid.ships, mid.block);
            let (inner, digits) = title_line(l2[0]).unwrap();
            let nb = new_block(dbref_of(digits), title_parts(inner).1, title_parts(inner).0);
            let after_title = ParseState { ships: Seq::empty(), block: Some(nb) };
            assert(feed(mid, l2[0]) == Some(with_ships_before(a, after_title))) by {
                assert(a + Seq::<ShipModel>::empty() =~= a);
            }
            assert(finish_block(Seq::<ShipModel>::empty(), None) =~= Seq::<ShipModel>::empty());
            assert(feed(start_state(), l2[0]) == Some(after_title));
            lemma_ships_before_are_kept(a, after_title, l2.skip(1));
            match feed_all(after_title, l2.skip(1)) {
                None => {},
                Some(end) => {
                    assert(finish_block(a + end.ships, end.block) =~= a + finish_block(
                        end.ships,
                        end.block,
                    )) by {
                        match end.block {
                            Some(b) => {
                                if is_valid(flush(b)) {
                                    assert((a + end.ships).push(into_ship(flush(b))) =~= a
                                        + end.ships.push(into_ship(flush(b))));
                                }
                            },
                            None => {},
                        }
                    }
                },
            }
        },
    }
}

/// A log holding several sheets, or several logs read one after the
/// other, give the ships of each in order: the ships of a log ending with a
/// line feed, followed by a log whose first line is a sheet's title, are
/// the ships of the first followed by those of the second.
pub proof fn law_logs_concatenate(t1: Seq<u8>, t2: Seq<u8>)
    requires
        t1.len() == 0 || t1.last() == 10,
        lines_from(t2, 0).len() > 0,
        title_line(lines_from(t2, 0)[0]) is Some,
    ensures
        ships_in_log(t1 + t2) == match (ships_in_log(t1), ships_in_log(t2)) {
            (Some(a), Some(b)) => Some(a + b),
            _ => None,
        },
{
    law_lines_of_concatenation(t1, t2);
    law_sheets_are_read_independently(lines_from(t1, 0), lines_from(t2, 0));
}

/// A sheet's reference, name and category come from its title alone: no
/// line of the sheet changes them.
pub proof fn law_lines_keep_a_sheets_identity(b: BlockModel, line: Seq<char>)
    ensures
        parse_line(b, line) matches Some(b2) ==> b2.dbref == b.dbref && b2.name == b.name
            && b2.category == b.category,
{
}

/// Two logs the reader accepts, the first ending with a line feed and the
/// second starting with a sheet's title, are accepted together and give
/// the ships of the first followed by those of the second.
pub proof fn law_accepted_logs_concatenate(t1: Seq<u8>, t2: Seq<u8>)
    requires
        t1.len() == 0 || t1.last() == 10,
        lines_from(t2, 0).len() > 0,
        title_line(lines_from(t2, 0)[0]) is Some,
        ships_in_log(t1) is Some,
        ships_in_log(t2) is Some,
    ensures
        ships_in_log(t1 + t2) == Some(ships_in_log(t1).unwrap() + ships_in_log(t2).unwrap()),
{
    law_logs_concatenate(t1, t2);
}

} // verus!
