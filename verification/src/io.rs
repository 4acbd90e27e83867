use vstd::prelude::*;

use crate::sprite::{Sprite, MAX_SPRITE_ROWS};

verus! {

/// Width of the display in bytes: 64 pixels packed 8 per byte.
pub const DISPLAY_WIDTH: usize = 8;

/// Height of the display in pixel rows.
pub const DISPLAY_HEIGHT: usize = 32;

/// Total size of the framebuffer in bytes.
pub const DISPLAY_BYTES: usize = DISPLAY_WIDTH * DISPLAY_HEIGHT;

/// A pixel coordinate: x (column, in pixels) and y (row).
#[derive(Clone, Copy, Debug, PartialEq, Eq, Structural)]
pub struct Point(pub u8, pub u8);

/// The bit offset of `px` inside its storage byte.
pub open spec fn x_offset(px: u8) -> u8 {
    (px % 8) as u8
}

/// The storage column that `px` falls in, after wrapping at the display width.
pub open spec fn first_col(px: u8) -> int {
    ((px as int) % 64) / 8
}

/// The storage column to the right of `first_col`, wrapping at the display width.
pub open spec fn second_col(px: u8) -> int {
    (first_col(px) + 1) % 8
}

/// The display row that sprite row `k` lands on, wrapping at the display height.
pub open spec fn sprite_row(py: u8, k: int) -> int {
    (py + k) % 32
}

/// Index in the framebuffer of the first byte touched by sprite row `k`.
pub open spec fn first_index(px: u8, py: u8, k: int) -> int {
    sprite_row(py, k) * 8 + first_col(px)
}

/// Index in the framebuffer of the second byte touched by sprite row `k`.
pub open spec fn second_index(px: u8, py: u8, k: int) -> int {
    sprite_row(py, k) * 8 + second_col(px)
}

/// The part of a sprite row that lands in the first storage byte.
pub open spec fn first_slice(row: u8, off: u8) -> u8 {
    row >> off
}

/// The part of a sprite row that spills into the second storage byte;
/// nothing spills when the row is byte-aligned.
pub open spec fn second_slice(row: u8, off: u8) -> u8 {
    if off == 0 { 0u8 } else { row << ((8 - off) as u8) }
}

/// One sprite row XOR-composited onto the framebuffer.
pub open spec fn draw_one_row(disp: Seq<u8>, px: u8, py: u8, k: int, row: u8) -> Seq<u8> {
    let off = x_offset(px);
    let i1 = first_index(px, py, k);
    let once = disp.update(i1, disp[i1] ^ first_slice(row, off));
    if off == 0 {
        once
    } else {
        let i2 = second_index(px, py, k);
        once.update(i2, once[i2] ^ second_slice(row, off))
    }
}

/// Whether XOR-compositing sprite row `k` onto `disp` erases a lit pixel.
pub open spec fn row_collides(disp: Seq<u8>, px: u8, py: u8, k: int, row: u8) -> bool {
    let off = x_offset(px);
    ||| disp[first_index(px, py, k)] & first_slice(row, off) != 0
    ||| (off != 0 && disp[second_index(px, py, k)] & second_slice(row, off) != 0)
}

/// The framebuffer after XOR-compositing all of `rows` at `(px, py)`.
pub open spec fn spec_draw(disp: Seq<u8>, px: u8, py: u8, rows: Seq<u8>) -> Seq<u8>
    decreases rows.len(),
{
    if rows.len() == 0 {
        disp
    } else {
        draw_one_row(spec_draw(disp, px, py, rows.drop_last()), px, py, rows.len() - 1, rows.last())
    }
}

/// Whether drawing `rows` at `(px, py)` erases any previously lit pixel.
pub open spec fn spec_collides(disp: Seq<u8>, px: u8, py: u8, rows: Seq<u8>) -> bool
    decreases rows.len(),
{
    if rows.len() == 0 {
        false
    } else {
        ||| spec_collides(disp, px, py, rows.drop_last())
        ||| row_collides(spec_draw(disp, px, py, rows.drop_last()), px, py, rows.len() - 1, rows.last())
    }
}

/// The framebuffer with every pixel off.
pub open spec fn blank_display() -> Seq<u8> {
    Seq::new(DISPLAY_BYTES as nat, |i: int| 0u8)
}

/// The XOR contribution of sprite row `k` to framebuffer byte `i`: the row's
/// slice where `i` is one of the two bytes the row touches, zero elsewhere.
pub open spec fn row_mask_at(px: u8, py: u8, k: int, row: u8, i: int) -> u8 {
    let off = x_offset(px);
    if i == first_index(px, py, k) {
        first_slice(row, off)
    } else if off != 0 && i == second_index(px, py, k) {
        second_slice(row, off)
    } else {
        0u8
    }
}

/// The combined XOR contribution of all of `rows` to framebuffer byte `i`.
pub open spec fn draw_mask_at(px: u8, py: u8, rows: Seq<u8>, i: int) -> u8
    decreases rows.len(),
{
    if rows.len() == 0 {
        0u8
    } else {
        draw_mask_at(px, py, rows.drop_last(), i) ^ row_mask_at(px, py, rows.len() - 1, rows.last(), i)
    }
}

proof fn lemma_xor_facts(a: u8, b: u8, c: u8)
    by (bit_vector)
    ensures
        a ^ 0 == a,
        0 ^ a == a,
        (a ^ b) ^ b == a,
        (a ^ b) ^ c == a ^ (b ^ c),
        a & b == 0 ==> ((a ^ b) & b) == b,
{
}

proof fn lemma_slices_cover_row(row: u8, off: u8)
    by (bit_vector)
    requires
        off < 8,
    ensures
        (first_slice(row, off) != 0 || (off != 0 && second_slice(row, off) != 0)) == (row != 0),
{
}

/// Both bytes a sprite row touches lie inside the framebuffer, and they are
/// two different bytes whenever the row is not byte-aligned.
proof fn lemma_indices(px: u8, py: u8, k: int)
    requires
        0 <= k,
    ensures
        0 <= sprite_row(py, k) < 32,
        0 <= first_index(px, py, k) < 256,
        0 <= second_index(px, py, k) < 256,
        first_index(px, py, k) != second_index(px, py, k),
{
}

/// Rows of one sprite land on pairwise different display rows.
proof fn lemma_row_distinct(py: u8, k: int, m: int)
    requires
        0 <= k < 16,
        0 <= m < 16,
        k != m,
    ensures
        sprite_row(py, k) != sprite_row(py, m),
{
    let ku = k as u8;
    let mu = m as u8;
    assert(ku != mu && ku < 16 && mu < 16
        ==> (py as u16 + ku as u16) % 32 != (py as u16 + mu as u16) % 32) by (bit_vector);
}

/// Bytes touched by different display rows are different framebuffer bytes.
proof fn lemma_rows_disjoint(px: u8, py: u8, k: int, m: int)
    requires
        0 <= k < 16,
        0 <= m < 16,
        k != m,
    ensures
        first_index(px, py, k) != first_index(px, py, m),
        first_index(px, py, k) != second_index(px, py, m),
        second_index(px, py, k) != first_index(px, py, m),
        second_index(px, py, k) != second_index(px, py, m),
{
    lemma_row_distinct(py, k, m);
    lemma_indices(px, py, k);
    lemma_indices(px, py, m);
}

/// Drawing one sprite row XORs each framebuffer byte with that row's mask.
proof fn lemma_draw_one_row_at(disp: Seq<u8>, px: u8, py: u8, k: int, row: u8, i: int)
    requires
        disp.len() == 256,
        0 <= k,
        0 <= i < 256,
    ensures
        draw_one_row(disp, px, py, k, row).len() == 256,
        draw_one_row(disp, px, py, k, row)[i] == disp[i] ^ row_mask_at(px, py, k, row, i),
{
    lemma_indices(px, py, k);
    lemma_xor_facts(disp[i], 0, 0);
}

/// A whole draw XORs each framebuffer byte with the combined mask of the rows.
proof fn lemma_spec_draw_at(disp: Seq<u8>, px: u8, py: u8, rows: Seq<u8>, i: int)
    requires
        disp.len() == 256,
        0 <= i < 256,
    ensures
        spec_draw(disp, px, py, rows).len() == 256,
        spec_draw(disp, px, py, rows)[i] == disp[i] ^ draw_mask_at(px, py, rows, i),
    decreases rows.len(),
{
    if rows.len() == 0 {
        lemma_xor_facts(disp[i], 0, 0);
    } else {
        let dl = rows.drop_last();
        lemma_spec_draw_at(disp, px, py, dl, i);
        lemma_draw_one_row_at(spec_draw(disp, px, py, dl), px, py, rows.len() - 1, rows.last(), i);
        lemma_xor_facts(disp[i], draw_mask_at(px, py, dl, i), row_mask_at(px, py, rows.len() - 1, rows.last(), i));
    }
}

/// Drawing the same sprite twice at the same coordinates restores the prior
/// framebuffer: XOR compositing is self-inverse.
pub proof fn lemma_draw_twice(disp: Seq<u8>, px: u8, py: u8, rows: Seq<u8>)
    requires
        disp.len() == 256,
    ensures
        spec_draw(spec_draw(disp, px, py, rows), px, py, rows) == disp,
{
    let d1 = spec_draw(disp, px, py, rows);
    let d2 = spec_draw(d1, px, py, rows);
    assert forall|i: int| 0 <= i < 256 implies d2[i] == disp[i] by {
        lemma_spec_draw_at(disp, px, py, rows, i);
        lemma_spec_draw_at(d1, px, py, rows, i);
        lemma_xor_facts(disp[i], draw_mask_at(px, py, rows, i), 0);
    }
    lemma_spec_draw_at(disp, px, py, rows, 0);
    lemma_spec_draw_at(d1, px, py, rows, 0);
    assert(d2 =~= disp);
}

/// Rows beyond the length of `rows` have none of their bytes touched by the
/// combined mask of `rows`.
proof fn lemma_prefix_mask_zero(px: u8, py: u8, rows: Seq<u8>, m: int)
    requires
        rows.len() <= m < 16,
    ensures
        draw_mask_at(px, py, rows, first_index(px, py, m)) == 0,
        draw_mask_at(px, py, rows, second_index(px, py, m)) == 0,
    decreases rows.len(),
{
    if rows.len() > 0 {
        let k = rows.len() - 1;
        lemma_prefix_mask_zero(px, py, rows.drop_last(), m);
        lemma_rows_disjoint(px, py, k, m);
        lemma_xor_facts(0, 0, 0);
    }
}

/// At the two bytes of row `m`, the combined mask is exactly row `m`'s slice:
/// no other row of the sprite touches them.
proof fn lemma_mask_single(px: u8, py: u8, rows: Seq<u8>, m: int)
    requires
        rows.len() <= 15,
        0 <= m < rows.len(),
    ensures
        draw_mask_at(px, py, rows, first_index(px, py, m)) == first_slice(rows[m], x_offset(px)),
        x_offset(px) != 0 ==> draw_mask_at(px, py, rows, second_index(px, py, m)) == second_slice(rows[m], x_offset(px)),
    decreases rows.len(),
{
    let k = rows.len() - 1;
    let dl = rows.drop_last();
    lemma_indices(px, py, m);
    if k == m {
        lemma_prefix_mask_zero(px, py, dl, m);
        lemma_xor_facts(first_slice(rows[m], x_offset(px)), 0, 0);
        lemma_xor_facts(second_slice(rows[m], x_offset(px)), 0, 0);
    } else {
        lemma_mask_single(px, py, dl, m);
        lemma_rows_disjoint(px, py, k, m);
        lemma_xor_facts(draw_mask_at(px, py, dl, first_index(px, py, m)), 0, 0);
        lemma_xor_facts(draw_mask_at(px, py, dl, second_index(px, py, m)), 0, 0);
    }
}

/// From a collision-free draw, each single row composited onto its prefix
/// was collision-free.
proof fn lemma_no_collision_rows(disp: Seq<u8>, px: u8, py: u8, rows: Seq<u8>)
    requires
        !spec_collides(disp, px, py, rows),
    ensures
        forall|m: int| 0 <= m < rows.len()
            ==> !#[trigger] row_collides(spec_draw(disp, px, py, rows.take(m)), px, py, m, rows[m]),
    decreases rows.len(),
{
    if rows.len() > 0 {
        let dl = rows.drop_last();
        lemma_no_collision_rows(disp, px, py, dl);
        assert forall|m: int| 0 <= m < rows.len()
            implies !#[trigger] row_collides(spec_draw(disp, px, py, rows.take(m)), px, py, m, rows[m]) by {
            if m < rows.len() - 1 {
                assert(rows.take(m) =~= dl.take(m));
                assert(dl[m] == rows[m]);
            } else {
                assert(rows.take(m) =~= dl);
            }
        }
    }
}

/// In the second draw of the same sprite onto a framebuffer it was drawn
/// onto collision-free, row `j` meets exactly its own first-draw bits, so it
/// collides exactly when it has a set bit.
proof fn lemma_second_row_collides(disp: Seq<u8>, px: u8, py: u8, rows: Seq<u8>, j: int)
    requires
        disp.len() == 256,
        rows.len() <= 15,
        0 <= j < rows.len(),
        !spec_collides(disp, px, py, rows),
    ensures
        row_collides(spec_draw(spec_draw(disp, px, py, rows), px, py, rows.take(j)), px, py, j, rows[j])
            == (rows[j] != 0u8),
{
    let d1 = spec_draw(disp, px, py, rows);
    let off = x_offset(px);
    let i1 = first_index(px, py, j);
    let i2 = second_index(px, py, j);
    let f = first_slice(rows[j], off);
    let s = second_slice(rows[j], off);
    lemma_indices(px, py, j);

    // In the first draw, row `j` found its two bytes clean.
    lemma_no_collision_rows(disp, px, py, rows);
    lemma_prefix_mask_zero(px, py, rows.take(j), j);
    lemma_spec_draw_at(disp, px, py, rows.take(j), i1);
    lemma_spec_draw_at(disp, px, py, rows.take(j), i2);
    lemma_xor_facts(disp[i1], 0, 0);
    lemma_xor_facts(disp[i2], 0, 0);
    assert(!row_collides(spec_draw(disp, px, py, rows.take(j)), px, py, j, rows[j]));
    assert(spec_draw(disp, px, py, rows.take(j))[i1] == disp[i1]);
    assert(spec_draw(disp, px, py, rows.take(j))[i2] == disp[i2]);
    assert(disp[i1] & f == 0);
    assert(off != 0 ==> disp[i2] & s == 0);

    // After the full first draw, those bytes hold exactly row `j`'s slices.
    lemma_mask_single(px, py, rows, j);
    lemma_spec_draw_at(disp, px, py, rows, i1);
    lemma_spec_draw_at(disp, px, py, rows, i2);
    assert(d1[i1] == disp[i1] ^ f);
    assert(off != 0 ==> d1[i2] == disp[i2] ^ s);

    // The second draw's prefix does not touch them.
    lemma_spec_draw_at(d1, px, py, rows.take(j), i1);
    lemma_spec_draw_at(d1, px, py, rows.take(j), i2);
    lemma_xor_facts(d1[i1], 0, 0);
    lemma_xor_facts(d1[i2], 0, 0);
    assert(spec_draw(d1, px, py, rows.take(j))[i1] == disp[i1] ^ f);

    lemma_xor_facts(disp[i1], f, 0);
    lemma_xor_facts(disp[i2], s, 0);
    assert((disp[i1] ^ f) & f == f);
    assert(off != 0 ==> (disp[i2] ^ s) & s == s);
    lemma_slices_cover_row(rows[j], off);
}

/// After a collision-free draw, drawing the same sprite again at the same
/// coordinates reports a collision on the rows it had drawn: up to prefix
/// `m`, exactly when some already-drawn row has a set bit.
proof fn lemma_second_collision_prefix(disp: Seq<u8>, px: u8, py: u8, rows: Seq<u8>, m: int)
    requires
        disp.len() == 256,
        rows.len() <= 15,
        0 <= m <= rows.len(),
        !spec_collides(disp, px, py, rows),
    ensures
        spec_collides(spec_draw(disp, px, py, rows), px, py, rows.take(m))
            == (exists|k: int| 0 <= k < m && #[trigger] rows[k] != 0u8),
    decreases m,
{
    let d1 = spec_draw(disp, px, py, rows);
    if m == 0 {
        assert(!(exists|k: int| 0 <= k < m && #[trigger] rows[k] != 0u8));
    } else {
        lemma_second_collision_prefix(disp, px, py, rows, m - 1);
        let j = m - 1;
        assert(rows.take(m).drop_last() =~= rows.take(j));
        assert(rows.take(m).last() == rows[j]);
        lemma_second_row_collides(disp, px, py, rows, j);
        assert(spec_collides(d1, px, py, rows.take(m))
            == (spec_collides(d1, px, py, rows.take(j)) || rows[j] != 0u8));

        if rows[j] != 0 {
            assert(exists|k: int| 0 <= k < m && #[trigger] rows[k] != 0u8);
        } else {
            assert forall|k: int| 0 <= k < m && #[trigger] rows[k] != 0u8 implies k < j by {}
        }
    }
}

/// After a collision-free draw of a sprite, drawing it again at the same
/// coordinates reports a collision exactly when the sprite has any set bit.
pub proof fn lemma_draw_twice_collision(disp: Seq<u8>, px: u8, py: u8, rows: Seq<u8>)
    requires
        disp.len() == 256,
        rows.len() <= 15,
        !spec_collides(disp, px, py, rows),
    ensures
        spec_collides(spec_draw(disp, px, py, rows), px, py, rows)
            == (exists|k: int| 0 <= k < rows.len() && #[trigger] rows[k] != 0u8),
{
    lemma_second_collision_prefix(disp, px, py, rows, rows.len() as int);
    assert(rows.take(rows.len() as int) =~= rows);
}

/// The monochrome bit-plane framebuffer: 32 rows of 8 bytes, one bit per
/// pixel, stored row-major.
pub struct Display {
    bytes: Vec<u8>,
}

impl View for Display {
    type V = Seq<u8>;

    closed spec fn view(&self) -> Seq<u8> {
        self.bytes@
    }
}

impl Display {
    pub open spec fn wf(&self) -> bool {
        self@.len() == DISPLAY_BYTES
    }

    /// A fresh display with every pixel off.
    pub fn new() -> (d: Display)
        ensures
            d.wf(),
            d@ == blank_display(),
    {
        let mut bytes: Vec<u8> = Vec::new();
        while bytes.len() < DISPLAY_BYTES
            invariant
                bytes@.len() <= DISPLAY_BYTES,
                forall|i: int| 0 <= i < bytes@.len() ==> bytes@[i] == 0u8,
            decreases DISPLAY_BYTES - bytes@.len(),
        {
            bytes.push(0);
        }
        let d = Display { bytes };
        proof {
            assert(d@ =~= blank_display());
        }
        d
    }

    /// XOR-composites the sprite onto the framebuffer with its top-left
    /// corner at `point`, wrapping on both axes; reports whether any
    /// previously lit pixel was erased.
    pub fn draw_sprite(&mut self, point: Point, sprite: Sprite) -> (collision: bool)
        requires
            old(self).wf(),
            sprite.wf(),
        ensures
            final(self).wf(),
            final(self)@ == spec_draw(old(self)@, point.0, point.1, sprite.rows@),
            collision == spec_collides(old(self)@, point.0, point.1, sprite.rows@),
    {
        let px = point.0;
        let py = point.1;
        let n = sprite.rows.len();
        let off = px % 8;
        let col = ((px % 64) / 8) as usize;
        let mut collision = false;
        let mut k: usize = 0;
        while k < n
            invariant
                k <= n,
                n <= MAX_SPRITE_ROWS,
                n == sprite.rows@.len(),
                off == x_offset(px),
                col == first_col(px),
                self@.len() == DISPLAY_BYTES,
                self@ == spec_draw(old(self)@, px, py, sprite.rows@.take(k as int)),
                collision == spec_collides(old(self)@, px, py, sprite.rows@.take(k as int)),
            decreases n - k,
        {
            let ghost prev = self@;
            let row = sprite.rows[k];
            let row_idx = ((py as usize) + k) % 32;
            let i1 = row_idx * 8 + col;
            proof {
                assert(row_idx == sprite_row(py, k as int));
                assert(i1 == first_index(px, py, k as int));
                assert(0 <= i1 < DISPLAY_BYTES);
            }
            let b1 = self.bytes[i1];
            let first = row >> off;
            if b1 & first != 0 {
                collision = true;
            }
            self.bytes.set(i1, b1 ^ first);
            if off != 0 {
                let i2 = row_idx * 8 + (col + 1) % 8;
                proof {
                    assert(i2 == second_index(px, py, k as int));
                    assert(0 <= i2 < DISPLAY_BYTES);
                    assert(second_col(px) != first_col(px));
                }
                let b2 = self.bytes[i2];
                let second = row << (8 - off);
                if b2 & second != 0 {
                    collision = true;
                }
                self.bytes.set(i2, b2 ^ second);
            }
            proof {
                assert(self@ =~= draw_one_row(prev, px, py, k as int, row));
                assert(sprite.rows@.take(k + 1).drop_last() =~= sprite.rows@.take(k as int));
                assert(sprite.rows@.take(k + 1).last() == row);
            }
            k += 1;
        }
        proof {
            assert(sprite.rows@.take(n as int) =~= sprite.rows@);
        }
        collision
    }

    /// Turns every pixel off.
    pub fn clear_screen(&mut self)
        requires
            old(self).wf(),
        ensures
            final(self).wf(),
            final(self)@ == blank_display(),
    {
        let mut i: usize = 0;
        while i < DISPLAY_BYTES
            invariant
                i <= DISPLAY_BYTES,
                self@.len() == DISPLAY_BYTES,
                forall|j: int| 0 <= j < i ==> self@[j] == 0u8,
            decreases DISPLAY_BYTES - i,
        {
            self.bytes.set(i, 0);
            i += 1;
        }
        proof {
            assert(self@ =~= blank_display());
        }
    }

    /// A copy of the packed bit-plane, for the host's render surface.
    pub fn snapshot(&self) -> (r: Vec<u8>)
        requires
            self.wf(),
        ensures
            r@ == self@,
    {
        let mut r: Vec<u8> = Vec::new();
        let mut i: usize = 0;
        while i < DISPLAY_BYTES
            invariant
                i <= DISPLAY_BYTES,
                self.wf(),
                r@.len() == i,
                forall|j: int| 0 <= j < i ==> r@[j] == self@[j],
            decreases DISPLAY_BYTES - i,
        {
            r.push(self.bytes[i]);
            i += 1;
        }
        proof {
            assert(r@ =~= self@);
        }
        r
    }
}

/// Number of logical keys on the keypad.
pub const NUM_KEYS: usize = 0x10;

/// The state of the 16 logical keys, as the host last reported it.
pub struct Keypad {
    keys: Vec<bool>,
}

impl View for Keypad {
    type V = Seq<bool>;

    closed spec fn view(&self) -> Seq<bool> {
        self.keys@
    }
}

impl Keypad {
    pub open spec fn wf(&self) -> bool {
        self@.len() == NUM_KEYS
    }

    /// A keypad with every key up.
    pub fn new() -> (k: Keypad)
        ensures
            k.wf(),
            forall|i: int| 0 <= i < NUM_KEYS ==> !k@[i],
    {
        let mut keys: Vec<bool> = Vec::new();
        while keys.len() < NUM_KEYS
            invariant
                keys@.len() <= NUM_KEYS,
                forall|i: int| 0 <= i < keys@.len() ==> !keys@[i],
            decreases NUM_KEYS - keys@.len(),
        {
            keys.push(false);
        }
        Keypad { keys }
    }

    /// Records that `key` went down or up.
    pub fn set_key(&mut self, key: u8, down: bool)
        requires
            old(self).wf(),
            key < 16,
        ensures
            final(self).wf(),
            final(self)@ == old(self)@.update(key as int, down),
    {
        self.keys.set(key as usize, down);
    }

    /// Whether `key` is currently down.
    pub fn key_down(&self, key: u8) -> (r: bool)
        requires
            self.wf(),
            key < 16,
        ensures
            r == self@[key as int],
    {
        self.keys[key as usize]
    }
}

} // verus!
