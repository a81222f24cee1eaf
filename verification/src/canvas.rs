//! A braille canvas for overlay charts. Each terminal cell is a 2x4 grid of
//! dots; the canvas remembers which series set each dot, so overlapping
//! series can be told apart when rendered.

use std::collections::HashMap;

use vstd::prelude::*;

use crate::text::{chars_of, push_all, string_of};

verus! {

broadcast use vstd::std_specs::hash::group_hash_axioms;

/// The braille dot bit for sub-pixel row `r` (0..4) and column `c` (0..2),
/// in the layout that drawille uses.
pub open spec fn dot_bit(r: int, c: int) -> u8 {
    if r == 0 {
        if c == 0 { 0x01u8 } else { 0x08u8 }
    } else if r == 1 {
        if c == 0 { 0x02u8 } else { 0x10u8 }
    } else if r == 2 {
        if c == 0 { 0x04u8 } else { 0x20u8 }
    } else {
        if c == 0 { 0x40u8 } else { 0x80u8 }
    }
}

/// The braille dots follow the drawille layout: the left column, top to
/// bottom, is dots 1, 2, 3 and 7 (bits 0x01, 0x02, 0x04, 0x40) and the right
/// column dots 4, 5, 6 and 8 (bits 0x08, 0x10, 0x20, 0x80). Each of the eight
/// sub-pixels of a cell has a single bit of its own.
pub proof fn law_dot_layout()
    ensures
        dot_bit(0, 0) == 0x01u8 && dot_bit(0, 1) == 0x08u8,
        dot_bit(1, 0) == 0x02u8 && dot_bit(1, 1) == 0x10u8,
        dot_bit(2, 0) == 0x04u8 && dot_bit(2, 1) == 0x20u8,
        dot_bit(3, 0) == 0x40u8 && dot_bit(3, 1) == 0x80u8,
        forall|r1: int, c1: int, r2: int, c2: int|
            0 <= r1 < 4 && 0 <= c1 < 2 && 0 <= r2 < 4 && 0 <= c2 < 2 && (r1 != r2 || c1 != c2)
                ==> #[trigger] dot_bit(r1, c1) & #[trigger] dot_bit(r2, c2) == 0,
{
    assert forall|r1: int, c1: int, r2: int, c2: int|
        0 <= r1 < 4 && 0 <= c1 < 2 && 0 <= r2 < 4 && 0 <= c2 < 2 && (r1 != r2 || c1 != c2)
            implies #[trigger] dot_bit(r1, c1) & #[trigger] dot_bit(r2, c2) == 0 by {
        let a = dot_bit(r1, c1);
        let b = dot_bit(r2, c2);
        assert(0x01u8 & 0x02u8 == 0 && 0x01u8 & 0x04u8 == 0 && 0x01u8 & 0x08u8 == 0 && 0x01u8 & 0x10u8 == 0
            && 0x01u8 & 0x20u8 == 0 && 0x01u8 & 0x40u8 == 0 && 0x01u8 & 0x80u8 == 0) by (bit_vector);
        assert(0x02u8 & 0x01u8 == 0 && 0x02u8 & 0x04u8 == 0 && 0x02u8 & 0x08u8 == 0 && 0x02u8 & 0x10u8 == 0
            && 0x02u8 & 0x20u8 == 0 && 0x02u8 & 0x40u8 == 0 && 0x02u8 & 0x80u8 == 0) by (bit_vector);
        assert(0x04u8 & 0x01u8 == 0 && 0x04u8 & 0x02u8 == 0 && 0x04u8 & 0x08u8 == 0 && 0x04u8 & 0x10u8 == 0
            && 0x04u8 & 0x20u8 == 0 && 0x04u8 & 0x40u8 == 0 && 0x04u8 & 0x80u8 == 0) by (bit_vector);
        assert(0x08u8 & 0x01u8 == 0 && 0x08u8 & 0x02u8 == 0 && 0x08u8 & 0x04u8 == 0 && 0x08u8 & 0x10u8 == 0
            && 0x08u8 & 0x20u8 == 0 && 0x08u8 & 0x40u8 == 0 && 0x08u8 & 0x80u8 == 0) by (bit_vector);
        assert(0x10u8 & 0x01u8 == 0 && 0x10u8 & 0x02u8 == 0 && 0x10u8 & 0x04u8 == 0 && 0x10u8 & 0x08u8 == 0
            && 0x10u8 & 0x20u8 == 0 && 0x10u8 & 0x40u8 == 0 && 0x10u8 & 0x80u8 == 0) by (bit_vector);
        assert(0x20u8 & 0x01u8 == 0 && 0x20u8 & 0x02u8 == 0 && 0x20u8 & 0x04u8 == 0 && 0x20u8 & 0x08u8 == 0
            && 0x20u8 & 0x10u8 == 0 && 0x20u8 & 0x40u8 == 0 && 0x20u8 & 0x80u8 == 0) by (bit_vector);
        assert(0x40u8 & 0x01u8 == 0 && 0x40u8 & 0x02u8 == 0 && 0x40u8 & 0x04u8 == 0 && 0x40u8 & 0x08u8 == 0
            && 0x40u8 & 0x10u8 == 0 && 0x40u8 & 0x20u8 == 0 && 0x40u8 & 0x80u8 == 0) by (bit_vector);
        assert(0x80u8 & 0x01u8 == 0 && 0x80u8 & 0x02u8 == 0 && 0x80u8 & 0x04u8 == 0 && 0x80u8 & 0x08u8 == 0
            && 0x80u8 & 0x10u8 == 0 && 0x80u8 & 0x20u8 == 0 && 0x80u8 & 0x40u8 == 0) by (bit_vector);
    }
}

/// The braille dot bit for sub-pixel row `r` and column `c`.
pub fn pixel_bit(r: u32, c: u32) -> (b: u8)
    requires
        r < 4,
        c < 2,
    ensures
        b == dot_bit(r as int, c as int),
{
    if r == 0 {
        if c == 0 { 0x01 } else { 0x08 }
    } else if r == 1 {
        if c == 0 { 0x02 } else { 0x10 }
    } else if r == 2 {
        if c == 0 { 0x04 } else { 0x20 }
    } else {
        if c == 0 { 0x40 } else { 0x80 }
    }
}

/// The dots one series has set in one cell.
#[derive(Clone, Copy, Debug)]
pub struct CellEntry {
    pub bitmask: u8,
    pub series_idx: usize,
}

/// A braille canvas that tracks which series owns each sub-pixel.
#[derive(Debug)]
pub struct OverlayCanvas {
    cells: HashMap<u32, Vec<CellEntry>>,
}

/// The contents of one cell: (bitmask, series) pairs. An empty sequence
/// is a cell nothing was drawn in.
pub type CellDots = Seq<(u8, usize)>;

/// The model of a canvas: the contents of every cell, keyed by (row, col).
pub type CanvasModel = Map<(u16, u16), CellDots>;

/// The model of a cell entry.
pub open spec fn entry_view(e: CellEntry) -> (u8, usize) {
    (e.bitmask, e.series_idx)
}

/// The model of a cell's entries.
pub open spec fn entries_view(es: Seq<CellEntry>) -> CellDots {
    es.map_values(|e: CellEntry| entry_view(e))
}

/// The number under which the cell at `key` = (row, col) is stored:
/// `row * 65536 + col`.
pub open spec fn key_code(key: (u16, u16)) -> u32 {
    (key.0 as int * 65536 + key.1 as int) as u32
}

/// Different cells are stored under different numbers.
proof fn lemma_key_code_injective(a: (u16, u16), b: (u16, u16))
    ensures
        key_code(a) == key_code(b) ==> a == b,
{
    let ca = a.0 as int * 65536 + a.1 as int;
    let cb = b.0 as int * 65536 + b.1 as int;
    assert(0 <= ca < 0x1_0000_0000) by (nonlinear_arith)
        requires
            ca == a.0 as int * 65536 + a.1 as int,
            0 <= a.0 < 65536,
            0 <= a.1 < 65536,
    ;
    assert(0 <= cb < 0x1_0000_0000) by (nonlinear_arith)
        requires
            cb == b.0 as int * 65536 + b.1 as int,
            0 <= b.0 < 65536,
            0 <= b.1 < 65536,
    ;
    if ca == cb {
        assert(a.0 == b.0) by (nonlinear_arith)
            requires
                ca == a.0 as int * 65536 + a.1 as int,
                cb == b.0 as int * 65536 + b.1 as int,
                ca == cb,
                0 <= a.1 < 65536,
                0 <= b.1 < 65536,
        ;
    }
}

/// The number under which the cell at (row, col) is stored.
fn cell_code(row: u16, col: u16) -> (r: u32)
    ensures
        r == key_code((row, col)),
{
    assert(row as u32 * 65536 + col as u32 <= 0xffff_ffff) by (nonlinear_arith)
        requires
            row < 65536,
            col < 65536,
    ;
    row as u32 * 65536 + col as u32
}

/// The contents of the cell at `key` in the stored map.
pub open spec fn cell_dots(cells: Map<u32, Vec<CellEntry>>, key: (u16, u16)) -> CellDots {
    if cells.contains_key(key_code(key)) {
        entries_view(cells[key_code(key)]@)
    } else {
        seq![]
    }
}

/// The canvas with nothing drawn.
pub open spec fn blank() -> CanvasModel {
    Map::new(|k: (u16, u16)| true, |k: (u16, u16)| Seq::<(u8, usize)>::empty())
}

/// The index of the first entry, from `i` on, that belongs to series `s`, or -1.
pub open spec fn series_from(es: CellDots, s: usize, i: int) -> int
    decreases es.len() - i,
{
    if i < 0 || i >= es.len() {
        -1
    } else if es[i].1 == s {
        i
    } else {
        series_from(es, s, i + 1)
    }
}

/// A cell's contents after series `s` sets the dot `bit`: the series' entry
/// gains the bit, or a new entry is appended for the series.
pub open spec fn with_dot(es: CellDots, s: usize, bit: u8) -> CellDots {
    let j = series_from(es, s, 0);
    if j != -1 { es.update(j, ((es[j].0 | bit) as u8, s)) } else { es.push((bit, s)) }
}

/// Whether a cell's contents are well formed: each series has at most one
/// entry, and every entry has at least one dot set.
pub open spec fn cell_sound(es: CellDots) -> bool {
    &&& forall|i: int| 0 <= i < es.len() ==> (#[trigger] es[i]).0 != 0
    &&& forall|i: int, j: int| 0 <= i < j < es.len() ==> (#[trigger] es[i]).1 != (#[trigger] es[j]).1
}

/// Whether every cell of a canvas is well formed.
pub open spec fn canvas_sound(m: CanvasModel) -> bool {
    forall|k: (u16, u16)| cell_sound(#[trigger] m[k])
}

/// The cell holding sub-pixel (x, y): row `y / 4` and column `x / 2`,
/// each truncated to 16 bits.
pub open spec fn cell_key(x: int, y: int) -> (u16, u16) {
    (((y / 4) % 65536) as u16, ((x / 2) % 65536) as u16)
}

/// The canvas after series `s` sets sub-pixel (x, y); negative coordinates
/// are ignored.
pub open spec fn canvas_set(m: CanvasModel, x: int, y: int, s: usize) -> CanvasModel {
    if x < 0 || y < 0 {
        m
    } else {
        let key = cell_key(x, y);
        m.insert(key, with_dot(m[key], s, dot_bit(y % 4, x % 2)))
    }
}

impl View for OverlayCanvas {
    type V = CanvasModel;

    closed spec fn view(&self) -> CanvasModel {
        Map::new(|k: (u16, u16)| true, |k: (u16, u16)| cell_dots(self.cells@, k))
    }
}

proof fn lemma_series_from(es: CellDots, s: usize, i: int)
    requires
        0 <= i,
    ensures
        series_from(es, s, i) == -1 ==> forall|j: int| i <= j < es.len() ==> (#[trigger] es[j]).1 != s,
        series_from(es, s, i) != -1 ==> i <= series_from(es, s, i) < es.len() && es[series_from(
            es,
            s,
            i,
        )].1 == s,
        series_from(es, s, i) != -1 ==> forall|k: int|
            i <= k < series_from(es, s, i) ==> (#[trigger] es[k]).1 != s,
    decreases es.len() - i,
{
    if i < es.len() && es[i].1 != s {
        lemma_series_from(es, s, i + 1);
    }
}

/// Sets the dot `bit` for series `s` in a cell's entries.
fn add_dot(es: &mut Vec<CellEntry>, s: usize, bit: u8)
    ensures
        entries_view(final(es)@) == with_dot(entries_view(old(es)@), s, bit),
        final(es)@.len() > 0,
{
    let ghost v0 = entries_view(es@);
    proof {
        lemma_series_from(v0, s, 0);
    }
    let mut j: usize = 0;
    while j < es.len()
        invariant
            j <= es.len(),
            es@ == old(es)@,
            v0 == entries_view(es@),
            series_from(v0, s, 0) == series_from(v0, s, j as int),
        decreases es.len() - j,
    {
        if es[j].series_idx == s {
            let e = CellEntry { bitmask: es[j].bitmask | bit, series_idx: s };
            es.set(j, e);
            assert(entries_view(es@) =~= v0.update(j as int, ((v0[j as int].0 | bit) as u8, s)));
            return;
        }
        j = j + 1;
    }
    es.push(CellEntry { bitmask: bit, series_idx: s });
    assert(entries_view(es@) =~= v0.push((bit, s)));
}

impl OverlayCanvas {
    /// Whether every stored cell holds at least one entry, so that a cell
    /// is drawn exactly when some series set a dot in it, and every cell is
    /// well formed.
    pub closed spec fn wf(&self) -> bool {
        &&& forall|c: u32| #[trigger] self.cells@.contains_key(c) ==> self.cells@[c]@.len() > 0
        &&& canvas_sound(self@)
    }

    /// An empty canvas.
    pub fn new() -> (r: OverlayCanvas)
        ensures
            r.wf(),
            r@ == blank(),
            canvas_sound(r@),
    {
        let r = OverlayCanvas { cells: HashMap::new() };
        assert(r@ =~= blank());
        r
    }

    /// Sets the sub-pixel at (x, y) for the given series. Negative
    /// coordinates are ignored.
    pub fn set(&mut self, x: i32, y: i32, series_idx: usize)
        requires
            old(self).wf(),
        ensures
            final(self).wf(),
            final(self)@ == canvas_set(old(self)@, x as int, y as int, series_idx),
            canvas_sound(final(self)@),
    {
        if x < 0 || y < 0 {
            return;
        }
        let xu = x as u32;
        let yu = y as u32;
        let col = ((xu / 2) % 65536) as u16;
        let row = ((yu / 4) % 65536) as u16;
        let bit = pixel_bit(yu % 4, xu % 2);
        let ghost key = (row, col);
        assert(key == cell_key(x as int, y as int));
        let ghost m0 = self@;
        let ghost c0 = self.cells@;
        let code = cell_code(row, col);
        let es = match self.cells.remove(&code) {
            Some(old_es) => {
                let mut es = old_es;
                add_dot(&mut es, series_idx, bit);
                es
            },
            None => {
                let mut es: Vec<CellEntry> = Vec::new();
                es.push(CellEntry { bitmask: bit, series_idx });
                assert(entries_view(es@) =~= seq![(bit, series_idx)]);
                es
            },
        };
        assert(entries_view(es@) == with_dot(m0[key], series_idx, bit));
        self.cells.insert(code, es);
        assert(self.cells@ == c0.insert(code, es));
        assert forall|k: (u16, u16)| #[trigger] cell_dots(self.cells@, k) == (if k == key {
            with_dot(m0[key], series_idx, bit)
        } else {
            m0[k]
        }) by {
            lemma_key_code_injective(k, key);
        }
        assert(self@ =~= m0.insert(key, with_dot(m0[key], series_idx, bit)));
        proof {
            law_set_keeps_sound(m0, x as int, y as int, series_idx);
        }
    }
}

/// Adding a non-empty dot mask for a series keeps a cell well formed.
proof fn lemma_with_dot_sound(es: CellDots, s: usize, bit: u8)
    requires
        cell_sound(es),
        bit != 0,
    ensures
        cell_sound(with_dot(es, s, bit)),
{
    lemma_series_from(es, s, 0);
    let j = series_from(es, s, 0);
    let r = with_dot(es, s, bit);
    if j != -1 {
        let a = es[j].0;
        assert(bit != 0 ==> (a | bit) as u8 != 0) by (bit_vector);
        assert forall|i: int, k: int| 0 <= i < k < r.len() implies (#[trigger] r[i]).1 != (
        #[trigger] r[k]).1 by {
            assert(r[i].1 == es[i].1 && r[k].1 == es[k].1);
        }
    } else {
        assert forall|i: int, k: int| 0 <= i < k < r.len() implies (#[trigger] r[i]).1 != (
        #[trigger] r[k]).1 by {
            if k == es.len() {
                assert(r[i] == es[i]);
            } else {
                assert(r[i] == es[i] && r[k] == es[k]);
            }
        }
    }
}

/// Every braille dot bit is a single set bit.
proof fn lemma_dot_bit_nonzero(r: int, c: int)
    ensures
        dot_bit(r, c) != 0,
{
}

/// Setting a sub-pixel keeps every cell well formed: each series keeps at
/// most one entry per cell, and no entry is left without a dot.
pub proof fn law_set_keeps_sound(m: CanvasModel, x: int, y: int, s: usize)
    requires
        canvas_sound(m),
    ensures
        canvas_sound(canvas_set(m, x, y, s)),
{
    if x >= 0 && y >= 0 {
        let key = cell_key(x, y);
        lemma_dot_bit_nonzero(y % 4, x % 2);
        lemma_with_dot_sound(m[key], s, dot_bit(y % 4, x % 2));
        let m1 = canvas_set(m, x, y, s);
        assert forall|k: (u16, u16)| cell_sound(#[trigger] m1[k]) by {
            if k != key {
                assert(m1[k] == m[k]);
            }
        }
    }
}

/// A blank canvas is well formed.
pub proof fn law_blank_sound()
    ensures
        canvas_sound(blank()),
{
}

/// Setting the same sub-pixel for the same series twice is the same as
/// setting it once.
pub proof fn law_set_idempotent(m: CanvasModel, x: int, y: int, s: usize)
    ensures
        canvas_set(canvas_set(m, x, y, s), x, y, s) == canvas_set(m, x, y, s),
{
    if x >= 0 && y >= 0 {
        let key = cell_key(x, y);
        let bit = dot_bit(y % 4, x % 2);
        let es = m[key];
        let es1 = with_dot(es, s, bit);
        lemma_series_from(es, s, 0);
        lemma_series_from(es1, s, 0);
        let j = series_from(es, s, 0);
        if j != -1 {
            let a = es[j].0;
            assert(((a | bit) as u8 | bit) as u8 == (a | bit) as u8) by (bit_vector);
            assert(series_from(es1, s, 0) == j) by {
                lemma_series_prefix(es, es1, s, 0, j);
            }
            assert(with_dot(es1, s, bit) =~= es1);
        } else {
            assert(series_from(es1, s, 0) == es.len()) by {
                lemma_series_prefix(es, es1, s, 0, es.len() as int);
            }
            assert(((bit | bit) as u8) == bit) by (bit_vector);
            assert(with_dot(es1, s, bit) =~= es1);
        }
        assert(canvas_set(canvas_set(m, x, y, s), x, y, s) =~= canvas_set(m, x, y, s));
    }
}

/// Two cell contents that agree before index `j` and differ from series `s`
/// there find series `s` at the same place up to `j`.
proof fn lemma_series_prefix(a: CellDots, b: CellDots, s: usize, from: int, j: int)
    requires
        0 <= from <= j < b.len(),
        j <= a.len(),
        forall|k: int| 0 <= k < j ==> #[trigger] a[k] == b[k],
        forall|k: int| from <= k < j ==> (#[trigger] a[k]).1 != s,
        b[j].1 == s,
    ensures
        series_from(b, s, from) == j,
    decreases j - from,
{
    if from < j {
        assert(a[from] == b[from]);
        lemma_series_prefix(a, b, s, from + 1, j);
    }
}

// ---------------------------------------------------------------------------
// Lines
// ---------------------------------------------------------------------------

/// A line from (x1, y1) to (x2, y2), as the tuple (x1, y1, x2, y2).
pub type Segment = (int, int, int, int);

/// The state of the line walk: current point and error term.
pub type WalkState = (int, int, int);

pub open spec fn abs(v: int) -> int {
    if v < 0 { -v } else { v }
}

/// Horizontal extent of a segment.
pub open spec fn seg_dx(l: Segment) -> int {
    abs(l.2 - l.0)
}

/// Vertical extent of a segment.
pub open spec fn seg_dy(l: Segment) -> int {
    abs(l.3 - l.1)
}

/// The horizontal step direction: +1 when the segment goes right, else -1.
pub open spec fn seg_sx(l: Segment) -> int {
    if l.0 < l.2 { 1 } else { -1 }
}

/// The vertical step direction: +1 when the segment goes down, else -1.
pub open spec fn seg_sy(l: Segment) -> int {
    if l.1 < l.3 { 1 } else { -1 }
}

/// Where Bresenham's walk starts: the first endpoint, error `dx - dy`.
pub open spec fn walk_start(l: Segment) -> WalkState {
    (l.0, l.1, seg_dx(l) - seg_dy(l))
}

/// One step of Bresenham's walk (all octants): step horizontally when
/// `2 * err >= -dy`, vertically when `2 * err <= dx`, or both.
pub open spec fn walk_step(l: Segment, st: WalkState) -> WalkState {
    let e2 = 2 * st.2;
    let xs = e2 >= -seg_dy(l);
    let ys = e2 <= seg_dx(l);
    let x = if xs { st.0 + seg_sx(l) } else { st.0 };
    let e1 = if xs { st.2 - seg_dy(l) } else { st.2 };
    let y = if ys { st.1 + seg_sy(l) } else { st.1 };
    let e = if ys { e1 + seg_dx(l) } else { e1 };
    (x, y, e)
}

/// The state after `n` steps of the walk.
pub open spec fn walk(l: Segment, n: nat) -> WalkState
    decreases n,
{
    if n == 0 { walk_start(l) } else { walk_step(l, walk(l, (n - 1) as nat)) }
}

/// Whether the walk has reached the second endpoint.
pub open spec fn at_end(l: Segment, st: WalkState) -> bool {
    st.0 == l.2 && st.1 == l.3
}

/// The first step count from `n` on (up to `limit`) at which the walk is at the end.
pub open spec fn end_from(l: Segment, n: nat, limit: nat) -> nat
    decreases limit - n,
{
    if n >= limit || at_end(l, walk(l, n)) { n } else { end_from(l, n + 1, limit) }
}

/// The number of steps the walk takes from one endpoint to the other.
pub open spec fn walk_len(l: Segment) -> nat {
    end_from(l, 0, (seg_dx(l) + seg_dy(l)) as nat)
}

/// The sub-pixels of the line, in drawing order.
pub open spec fn line_points(l: Segment) -> Seq<(int, int)> {
    Seq::new(walk_len(l) + 1, |i: int| (walk(l, i as nat).0, walk(l, i as nat).1))
}

/// The canvas after series `s` sets each of `pts` in order.
pub open spec fn set_points(m: CanvasModel, pts: Seq<(int, int)>, s: usize) -> CanvasModel
    decreases pts.len(),
{
    if pts.len() == 0 {
        m
    } else {
        canvas_set(set_points(m, pts.drop_last(), s), pts.last().0, pts.last().1, s)
    }
}

/// How far the walk has moved horizontally from the start.
pub open spec fn walk_a(l: Segment, st: WalkState) -> int {
    if l.0 < l.2 { st.0 - l.0 } else { l.0 - st.0 }
}

/// How far the walk has moved vertically from the start.
pub open spec fn walk_b(l: Segment, st: WalkState) -> int {
    if l.1 < l.3 { st.1 - l.1 } else { l.1 - st.1 }
}

/// The walk's invariant: it stays between the endpoints, and its error term
/// is `dx - dy + dx * b - dy * a` within `[-2 dy, 2 dx]`.
pub open spec fn walk_inv(l: Segment, st: WalkState) -> bool {
    let dx = seg_dx(l);
    let dy = seg_dy(l);
    let a = walk_a(l, st);
    let b = walk_b(l, st);
    &&& 0 <= a <= dx
    &&& 0 <= b <= dy
    &&& st.2 == dx - dy + dx * b - dy * a
    &&& -2 * dy <= st.2 <= 2 * dx
}

proof fn lemma_mul_le(p: int, q: int, r: int)
    by (nonlinear_arith)
    requires
        0 <= p,
        q <= r,
    ensures
        p * q <= p * r,
{
}

proof fn lemma_mul_succ(p: int, q: int)
    by (nonlinear_arith)
    ensures
        p * (q + 1) == p * q + p,
{
}

/// A step keeps the invariant, moves at least once, and never overshoots.
proof fn lemma_walk_step(l: Segment, st: WalkState)
    requires
        walk_inv(l, st),
        !at_end(l, st),
    ensures
        walk_inv(l, walk_step(l, st)),
        walk_a(l, walk_step(l, st)) + walk_b(l, walk_step(l, st)) >= walk_a(l, st) + walk_b(l, st)
            + 1,
        walk_a(l, walk_step(l, st)) == if 2 * st.2 >= -seg_dy(l) {
            walk_a(l, st) + 1
        } else {
            walk_a(l, st)
        },
        walk_b(l, walk_step(l, st)) == if 2 * st.2 <= seg_dx(l) {
            walk_b(l, st) + 1
        } else {
            walk_b(l, st)
        },
{
    let dx = seg_dx(l);
    let dy = seg_dy(l);
    let a = walk_a(l, st);
    let b = walk_b(l, st);
    let e = st.2;
    let xs = 2 * e >= -dy;
    let ys = 2 * e <= dx;
    if a == dx {
        assert(b < dy);
        lemma_mul_le(dx, b, dy - 1);
        lemma_mul_succ(dx, dy - 1);
        assert(dy * a == dx * dy) by (nonlinear_arith)
            requires
                a == dx,
        ;
        assert(!xs);
    }
    if b == dy {
        assert(a < dx);
        lemma_mul_le(dy, a, dx - 1);
        lemma_mul_succ(dy, dx - 1);
        assert(dx * b == dx * dy) by (nonlinear_arith)
            requires
                b == dy,
        ;
        assert(dx * dy == dy * dx) by (nonlinear_arith);
        assert(e >= dx);
        assert(!ys);
    }
    lemma_mul_succ(dy, a);
    lemma_mul_succ(dx, b);
    let n = walk_step(l, st);
    assert(walk_a(l, n) == if xs { a + 1 } else { a });
    assert(walk_b(l, n) == if ys { b + 1 } else { b });
}

/// Until it reaches the end, the walk keeps the invariant and has moved at
/// least once per step.
proof fn lemma_walk_progress(l: Segment, n: nat)
    requires
        forall|m: nat| m < n ==> !at_end(l, #[trigger] walk(l, m)),
    ensures
        walk_inv(l, walk(l, n)),
        walk_a(l, walk(l, n)) + walk_b(l, walk(l, n)) >= n,
    decreases n,
{
    if n == 0 {
        let st = walk_start(l);
        assert(walk_a(l, st) == 0 && walk_b(l, st) == 0);
    } else {
        let p = (n - 1) as nat;
        lemma_walk_progress(l, p);
        assert(!at_end(l, walk(l, p)));
        lemma_walk_step(l, walk(l, p));
    }
}

proof fn lemma_end_from(l: Segment, n: nat, limit: nat)
    requires
        n <= limit,
    ensures
        n <= end_from(l, n, limit) <= limit,
        end_from(l, n, limit) < limit ==> at_end(l, walk(l, end_from(l, n, limit))),
        forall|m: nat| n <= m < end_from(l, n, limit) ==> !at_end(l, #[trigger] walk(l, m)),
    decreases limit - n,
{
    if n < limit && !at_end(l, walk(l, n)) {
        lemma_end_from(l, n + 1, limit);
    }
}

/// The walk reaches the second endpoint after `walk_len` steps, and not before.
pub proof fn lemma_walk_reaches_end(l: Segment)
    ensures
        at_end(l, walk(l, walk_len(l))),
        forall|m: nat| m < walk_len(l) ==> !at_end(l, #[trigger] walk(l, m)),
        walk_len(l) <= seg_dx(l) + seg_dy(l),
{
    let limit = (seg_dx(l) + seg_dy(l)) as nat;
    lemma_end_from(l, 0, limit);
    let k = walk_len(l);
    if !at_end(l, walk(l, k)) {
        assert(k == limit);
        lemma_walk_progress(l, k);
        let st = walk(l, k);
        assert(walk_a(l, st) == seg_dx(l) && walk_b(l, st) == seg_dy(l));
        assert(at_end(l, st));
    }
}

/// The index at which the walk first reaches the end is `walk_len`.
proof fn lemma_walk_len_unique(l: Segment, i: nat)
    requires
        at_end(l, walk(l, i)),
        forall|m: nat| m < i ==> !at_end(l, #[trigger] walk(l, m)),
    ensures
        walk_len(l) == i,
{
    lemma_walk_reaches_end(l);
    if walk_len(l) < i {
        assert(!at_end(l, walk(l, walk_len(l))));
    }
    if i < walk_len(l) {
        assert(!at_end(l, walk(l, i)));
    }
}

/// Along the walk the major axis advances on every step: when the line is
/// at least as wide as it is tall, each step moves horizontally, and
/// otherwise each step moves vertically.
proof fn lemma_major_axis(l: Segment, n: nat)
    requires
        n <= walk_len(l),
    ensures
        walk_inv(l, walk(l, n)),
        seg_dx(l) >= seg_dy(l) ==> walk_a(l, walk(l, n)) == n && 2 * walk(l, n).2 >= -seg_dy(l),
        seg_dy(l) >= seg_dx(l) ==> walk_b(l, walk(l, n)) == n && 2 * walk(l, n).2 <= seg_dx(l),
    decreases n,
{
    lemma_walk_reaches_end(l);
    if n == 0 {
        lemma_walk_progress(l, 0);
    } else {
        let p = (n - 1) as nat;
        lemma_major_axis(l, p);
        let st = walk(l, p);
        assert(!at_end(l, st));
        lemma_walk_step(l, st);
        assert(walk(l, n) == walk_step(l, st));
    }
}

/// The walk moves monotonically away from the start: from step `i` to a
/// later step `j`, it has moved at least `j - i` times in all.
proof fn lemma_walk_spread(l: Segment, i: nat, j: nat)
    requires
        i <= j <= walk_len(l),
    ensures
        walk_a(l, walk(l, i)) <= walk_a(l, walk(l, j)),
        walk_b(l, walk(l, i)) <= walk_b(l, walk(l, j)),
        walk_a(l, walk(l, j)) + walk_b(l, walk(l, j)) >= walk_a(l, walk(l, i)) + walk_b(
            l,
            walk(l, i),
        ) + (j - i),
    decreases j - i,
{
    if i < j {
        lemma_walk_reaches_end(l);
        let p = (j - 1) as nat;
        lemma_walk_spread(l, i, p);
        lemma_major_axis(l, p);
        assert(!at_end(l, walk(l, p)));
        lemma_walk_step(l, walk(l, p));
        assert(walk(l, j) == walk_step(l, walk(l, p)));
    }
}

/// A drawn line has exactly `max(dx, dy) + 1` sub-pixels, all different,
/// and moves monotonically from the first endpoint toward the second along
/// each axis.
pub proof fn law_line_count(x1: int, y1: int, x2: int, y2: int)
    ensures
        ({
            let l = (x1, y1, x2, y2);
            let pts = line_points(l);
            &&& pts.len() == (if seg_dx(l) >= seg_dy(l) { seg_dx(l) } else { seg_dy(l) }) + 1
            &&& forall|i: int, j: int|
                0 <= i < j < pts.len() ==> (#[trigger] pts[i]) != (#[trigger] pts[j])
            &&& forall|i: int|
                0 <= i < pts.len() - 1 ==> {
                    &&& (if x1 < x2 { (#[trigger] pts[i]).0 <= pts[i + 1].0 } else { pts[i + 1].0
                        <= pts[i].0 })
                    &&& (if y1 < y2 { pts[i].1 <= pts[i + 1].1 } else { pts[i + 1].1 <= pts[i].1 })
                }
        }),
{
    let l = (x1, y1, x2, y2);
    let pts = line_points(l);
    let k = walk_len(l);
    lemma_walk_reaches_end(l);
    lemma_major_axis(l, k);
    assert(walk_a(l, walk(l, k)) == seg_dx(l) && walk_b(l, walk(l, k)) == seg_dy(l));
    assert forall|i: int, j: int| 0 <= i < j < pts.len() implies (#[trigger] pts[i]) != (
    #[trigger] pts[j]) by {
        lemma_walk_spread(l, i as nat, j as nat);
    }
    assert forall|i: int| 0 <= i < pts.len() - 1 implies {
        &&& (if x1 < x2 { (#[trigger] pts[i]).0 <= pts[i + 1].0 } else { pts[i + 1].0 <= pts[i].0 })
        &&& (if y1 < y2 { pts[i].1 <= pts[i + 1].1 } else { pts[i + 1].1 <= pts[i].1 })
    } by {
        lemma_walk_spread(l, i as nat, (i + 1) as nat);
    }
}

/// A drawn line starts at its first endpoint and ends at its second; each
/// sub-pixel after the first is a different 8-neighbour of the one before;
/// every sub-pixel lies in the endpoints' bounding box; and the line has at
/// most `dx + dy + 1` sub-pixels.
pub proof fn law_line_shape(x1: int, y1: int, x2: int, y2: int)
    ensures
        ({
            let l = (x1, y1, x2, y2);
            let pts = line_points(l);
            &&& pts.len() >= 1
            &&& pts[0] == (x1, y1)
            &&& pts.last() == (x2, y2)
            &&& pts.len() <= seg_dx(l) + seg_dy(l) + 1
            &&& forall|i: int|
                0 <= i < pts.len() - 1 ==> {
                    &&& abs(pts[i + 1].0 - (#[trigger] pts[i]).0) <= 1
                    &&& abs(pts[i + 1].1 - pts[i].1) <= 1
                    &&& pts[i + 1] != pts[i]
                }
            &&& forall|i: int|
                0 <= i < pts.len() ==> {
                    &&& (if x1 <= x2 { x1 <= (#[trigger] pts[i]).0 <= x2 } else { x2 <= pts[i].0
                        <= x1 })
                    &&& (if y1 <= y2 { y1 <= pts[i].1 <= y2 } else { y2 <= pts[i].1 <= y1 })
                }
        }),
{
    let l = (x1, y1, x2, y2);
    let pts = line_points(l);
    lemma_walk_reaches_end(l);
    assert forall|i: int| 0 <= i < pts.len() implies {
        &&& (if x1 <= x2 { x1 <= (#[trigger] pts[i]).0 <= x2 } else { x2 <= pts[i].0 <= x1 })
        &&& (if y1 <= y2 { y1 <= pts[i].1 <= y2 } else { y2 <= pts[i].1 <= y1 })
    } by {
        lemma_walk_progress(l, i as nat);
    }
    assert forall|i: int| 0 <= i < pts.len() - 1 implies {
        &&& abs(pts[i + 1].0 - (#[trigger] pts[i]).0) <= 1
        &&& abs(pts[i + 1].1 - pts[i].1) <= 1
        &&& pts[i + 1] != pts[i]
    } by {
        lemma_walk_progress(l, i as nat);
        assert(walk(l, (i + 1) as nat) == walk_step(l, walk(l, i as nat)));
    }
}

/// The first `n` points of the walk.
pub open spec fn walk_prefix(l: Segment, n: nat) -> Seq<(int, int)> {
    Seq::new(n, |i: int| (walk(l, i as nat).0, walk(l, i as nat).1))
}

impl OverlayCanvas {
    /// Draws a line from (x1, y1) to (x2, y2) for the given series with
    /// Bresenham's algorithm, setting every sub-pixel on the way.
    pub fn line(&mut self, x1: i32, y1: i32, x2: i32, y2: i32, series_idx: usize)
        requires
            old(self).wf(),
        ensures
            final(self).wf(),
            canvas_sound(final(self)@),
            final(self)@ == set_points(
                old(self)@,
                line_points((x1 as int, y1 as int, x2 as int, y2 as int)),
                series_idx,
            ),
    {
        let ghost l: Segment = (x1 as int, y1 as int, x2 as int, y2 as int);
        let ghost m0 = self@;
        let ddx: i64 = x2 as i64 - x1 as i64;
        let dx: i64 = if ddx < 0 { -ddx } else { ddx };
        let ddy: i64 = y2 as i64 - y1 as i64;
        let dy: i64 = -(if ddy < 0 { -ddy } else { ddy });
        let sx: i32 = if x1 < x2 { 1 } else { -1 };
        let sy: i32 = if y1 < y2 { 1 } else { -1 };
        let mut err: i64 = dx + dy;
        let mut cx: i32 = x1;
        let mut cy: i32 = y1;
        let ghost mut i: nat = 0;
        assert(walk_prefix(l, 0) =~= Seq::<(int, int)>::empty());
        proof {
            lemma_walk_progress(l, 0);
        }
        loop
            invariant
                self.wf(),
                l == (x1 as int, y1 as int, x2 as int, y2 as int),
                dx == seg_dx(l),
                dy == -seg_dy(l),
                sx == seg_sx(l),
                sy == seg_sy(l),
                (cx as int, cy as int, err as int) == walk(l, i),
                walk_inv(l, walk(l, i)),
                forall|m: nat| m < i ==> !at_end(l, #[trigger] walk(l, m)),
                walk_a(l, walk(l, i)) + walk_b(l, walk(l, i)) >= i,
                self@ == set_points(m0, walk_prefix(l, i), series_idx),
                m0 == old(self)@,
            decreases seg_dx(l) + seg_dy(l) - (walk_a(l, walk(l, i)) + walk_b(l, walk(l, i))),
        {
            let ghost before = self@;
            self.set(cx, cy, series_idx);
            proof {
                assert(walk_prefix(l, i + 1).drop_last() =~= walk_prefix(l, i));
            }
            if cx == x2 && cy == y2 {
                proof {
                    lemma_walk_len_unique(l, i);
                    assert(line_points(l) =~= walk_prefix(l, i + 1));
                }
                return;
            }
            proof {
                lemma_walk_step(l, walk(l, i));
            }
            let e2 = 2 * err;
            if e2 >= dy {
                err = err + dy;
                cx = cx + sx;
            }
            if e2 <= dx {
                err = err + dx;
                cy = cy + sy;
            }
            proof {
                i = i + 1;
            }
        }
    }
}

// ---------------------------------------------------------------------------
// Rendering
// ---------------------------------------------------------------------------

/// The number of set bits of `b`.
pub open spec fn ones(b: nat) -> nat
    decreases b,
{
    if b == 0 { 0 } else { (b % 2) + ones(b / 2) }
}

/// The union of all series' dots in a cell.
pub open spec fn dots_union(es: CellDots) -> u8
    decreases es.len(),
{
    if es.len() == 0 { 0u8 } else { (dots_union(es.drop_last()) | es.last().0) as u8 }
}

/// The index of the entry with the most dots among the first `n`; on a tie
/// the later entry wins, as `Iterator::max_by_key` does.
pub open spec fn best_entry(es: CellDots, n: nat) -> nat
    decreases n,
{
    if n <= 1 {
        0
    } else {
        let b = best_entry(es, (n - 1) as nat);
        if ones(es[n - 1].0 as nat) >= ones(es[b as int].0 as nat) { (n - 1) as nat } else { b }
    }
}

/// The braille character showing the dots `b`.
pub open spec fn braille(b: u8) -> char {
    (0x2800 + b) as char
}

/// The decimal digits of `n`.
pub open spec fn decimal(n: nat) -> Seq<char>
    decreases n,
{
    if n < 10 {
        seq![(n + 48) as char]
    } else {
        decimal(n / 10).push(((n % 10) + 48) as char)
    }
}

/// The text of one cell: a space when nothing was drawn, else the braille
/// character of all its dots in the colour of the series with the most dots.
pub open spec fn cell_text(es: CellDots, colors: Seq<(u8, u8, u8)>) -> Seq<char> {
    if es.len() == 0 {
        seq![' ']
    } else {
        let c = colors[(es[best_entry(es, es.len()) as int].1 as int) % (colors.len() as int)];
        "\x1b[38;2;"@ + decimal(c.0 as nat) + ";"@ + decimal(c.1 as nat) + ";"@ + decimal(
            c.2 as nat,
        ) + "m"@ + seq![braille(dots_union(es))] + "\x1b[0m"@
    }
}

/// The text of the first `w` cells of row `r`.
pub open spec fn row_text(m: CanvasModel, colors: Seq<(u8, u8, u8)>, r: u16, w: nat) -> Seq<char>
    decreases w,
{
    if w == 0 {
        seq![]
    } else {
        row_text(m, colors, r, (w - 1) as nat) + cell_text(m[(r, (w - 1) as u16)], colors)
    }
}

/// A row of a canvas nothing was drawn on is all spaces.
pub proof fn law_blank_row(colors: Seq<(u8, u8, u8)>, r: u16, w: nat)
    ensures
        row_text(blank(), colors, r, w) == Seq::new(w, |i: int| ' '),
    decreases w,
{
    if w > 0 {
        law_blank_row(colors, r, (w - 1) as nat);
        assert(blank()[(r, (w - 1) as u16)] == Seq::<(u8, usize)>::empty());
        assert(row_text(blank(), colors, r, w) =~= Seq::new(w, |i: int| ' '));
    } else {
        assert(row_text(blank(), colors, r, w) =~= Seq::new(w, |i: int| ' '));
    }
}

/// `char::from_u32`: the character with this code point, or `None` for a
/// surrogate or a value above `0x10FFFF`, as its documentation states.
#[verifier::external_body]
fn char_from_u32(v: u32) -> (r: Option<char>)
    ensures
        (v < 0xD800 || (0xE000 <= v && v <= 0x10FFFF)) ==> r == Some(v as char),
        !(v < 0xD800 || (0xE000 <= v && v <= 0x10FFFF)) ==> r is None,
{
    char::from_u32(v)
}

proof fn lemma_ones_le(n: nat)
    ensures
        ones(n) <= n,
    decreases n,
{
    if n > 0 {
        lemma_ones_le(n / 2);
    }
}

/// The number of set bits of `b`.
fn count_ones(b: u8) -> (r: u32)
    ensures
        r == ones(b as nat),
{
    proof {
        lemma_ones_le(b as nat);
    }
    let mut v: u8 = b;
    let mut r: u32 = 0;
    while v > 0
        invariant
            r + ones(v as nat) == ones(b as nat),
            ones(b as nat) <= 255,
        decreases v,
    {
        r = r + (v % 2) as u32;
        v = v / 2;
    }
    r
}

/// The decimal digits of `n`.
fn decimal_u8(n: u8) -> (r: Vec<char>)
    ensures
        r@ == decimal(n as nat),
{
    let mut r: Vec<char> = Vec::new();
    let ghost k = n as nat;
    if n >= 100 {
        let h: u8 = n / 100;
        let t: u8 = (n / 10) % 10;
        let o: u8 = n % 10;
        r.push((h + 48) as char);
        r.push((t + 48) as char);
        r.push((o + 48) as char);
        assert(decimal(k / 100) == seq![((k / 100) + 48) as char]);
        assert(decimal(k / 10) == decimal((k / 10) / 10).push((((k / 10) % 10) + 48) as char));
        assert((k / 10) / 10 == k / 100);
        assert(decimal(k) == decimal(k / 10).push(((k % 10) + 48) as char));
    } else if n >= 10 {
        let t: u8 = n / 10;
        let o: u8 = n % 10;
        r.push((t + 48) as char);
        r.push((o + 48) as char);
        assert(decimal(k / 10) == seq![((k / 10) + 48) as char]);
        assert(decimal(k) == decimal(k / 10).push(((k % 10) + 48) as char));
    } else {
        r.push((n + 48) as char);
    }
    assert(r@ =~= decimal(n as nat));
    r
}

impl OverlayCanvas {
    /// The text of one drawn cell.
    fn render_cell(es: &Vec<CellEntry>, colors: &[(u8, u8, u8)]) -> (r: Vec<char>)
        requires
            es@.len() > 0,
            colors@.len() > 0,
        ensures
            r@ == cell_text(entries_view(es@), colors@),
    {
        let ghost ev = entries_view(es@);
        let mut combined: u8 = 0;
        let mut best: usize = 0;
        let mut best_ones: u32 = count_ones(es[0].bitmask);
        let mut i: usize = 0;
        while i < es.len()
            invariant
                0 < es@.len(),
                ev == entries_view(es@),
                i <= es@.len(),
                combined == dots_union(ev.take(i as int)),
                i > 0 ==> best as nat == best_entry(ev, i as nat),
                i == 0 ==> best == 0,
                best < es@.len(),
                best_ones == ones(ev[best as int].0 as nat),
            decreases es.len() - i,
        {
            assert(ev.take(i + 1).drop_last() =~= ev.take(i as int));
            combined = combined | es[i].bitmask;
            if i > 0 {
                let o = count_ones(es[i].bitmask);
                if o >= best_ones {
                    best = i;
                    best_ones = o;
                }
            }
            i = i + 1;
        }
        assert(ev.take(es@.len() as int) =~= ev);
        let (cr, cg, cb) = colors[es[best].series_idx % colors.len()];
        let mut r = chars_of("\x1b[38;2;");
        push_all(&mut r, decimal_u8(cr).as_slice());
        push_all(&mut r, chars_of(";").as_slice());
        push_all(&mut r, decimal_u8(cg).as_slice());
        push_all(&mut r, chars_of(";").as_slice());
        push_all(&mut r, decimal_u8(cb).as_slice());
        push_all(&mut r, chars_of("m").as_slice());
        let ch = match char_from_u32(0x2800 + combined as u32) {
            Some(c) => c,
            None => ' ',
        };
        r.push(ch);
        push_all(&mut r, chars_of("\x1b[0m").as_slice());
        r
    }

    /// Renders the canvas as `height_cells` rows of `width_cells` cells each.
    /// A drawn cell shows the braille character of all its dots, coloured
    /// with the colour of the series owning the most of them; other cells
    /// are spaces.
    pub fn render(&self, colors: &[(u8, u8, u8)], width_cells: u16, height_cells: u16) -> (rows:
        Vec<String>)
        requires
            self.wf(),
            colors@.len() > 0 || forall|r: u16, c: u16|
                r < height_cells && c < width_cells ==> (#[trigger] self@[(r, c)]).len() == 0,
        ensures
            rows@.len() == height_cells,
            forall|r: int|
                0 <= r < height_cells ==> (#[trigger] rows@[r])@ == row_text(
                    self@,
                    colors@,
                    r as u16,
                    width_cells as nat,
                ),
    {
        let mut rows: Vec<String> = Vec::new();
        let mut row: u16 = 0;
        while row < height_cells
            invariant
                self.wf(),
                row <= height_cells,
                rows@.len() == row,
                colors@.len() > 0 || forall|r: u16, c: u16|
                    r < height_cells && c < width_cells ==> (#[trigger] self@[(r, c)]).len() == 0,
                forall|r: int|
                    0 <= r < row ==> (#[trigger] rows@[r])@ == row_text(
                        self@,
                        colors@,
                        r as u16,
                        width_cells as nat,
                    ),
            decreases height_cells - row,
        {
            let mut line: Vec<char> = Vec::new();
            let mut col: u16 = 0;
            while col < width_cells
                invariant
                    self.wf(),
                    row < height_cells,
                    col <= width_cells,
                    colors@.len() > 0 || forall|r: u16, c: u16|
                        r < height_cells && c < width_cells ==> (#[trigger] self@[(r, c)]).len()
                            == 0,
                    line@ == row_text(self@, colors@, row, col as nat),
                decreases width_cells - col,
            {
                let ghost es = self@[(row, col)];
                let code = cell_code(row, col);
                match self.cells.get(&code) {
                    Some(entries) => {
                        assert(es == entries_view(entries@));
                        assert(es.len() > 0);
                        let t = Self::render_cell(entries, colors);
                        push_all(&mut line, t.as_slice());
                    },
                    None => {
                        assert(es =~= Seq::<(u8, usize)>::empty());
                        line.push(' ');
                    },
                }
                col = col + 1;
            }
            rows.push(string_of(line.as_slice()));
            row = row + 1;
        }
        rows
    }
}

} // verus!
