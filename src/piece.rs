//! Piece shapes: 5 by 5 occupancy grids and their rotations and flips.

use bitvec::array::BitArray;
use bitvec::order::Lsb0;
use vstd::prelude::*;

verus! {

/// Number of cells in a row or column of a shape frame.
pub const ROW_LEN: usize = 5;

/// One row of a shape: a bit array of eight bits, of which the first five
/// are the row's cells and the rest stay zero. The array sits in a field
/// hidden from Verus, since the bounds of `BitArray` name bitvec's own traits,
/// which Verus does not take in a type declaration; what a row holds is
/// `row_bits`.
#[verifier::external_body]
#[derive(PartialEq, Eq, Debug)]
pub struct Row {
    bits: BitArray<[u8; 1], Lsb0>,
}

impl Clone for Row {
    /// Relies on the `Copy` impl of `bitvec::array::BitArray`: the copy holds
    /// the same bits.
    #[verifier::external_body]
    fn clone(&self) -> (r: Row)
        ensures
            r == *self,
    {
        Row { bits: self.bits }
    }
}

impl Copy for Row {
}

/// A piece in one orientation: five rows of five cells each.
pub type Shape = [Row; 5];

/// The bits that a row holds, in index order.
pub uninterp spec fn row_bits(r: Row) -> Seq<bool>;

/// Relies on `bitvec::array::BitArray::ZERO`: an array of eight bits, all of them zero.
#[verifier::external_body]
fn row_zero() -> (r: Row)
    ensures
        row_bits(r) == Seq::new(8, |i: int| false),
{
    Row { bits: BitArray::ZERO }
}

/// Relies on indexing a `bitvec::array::BitArray` by `usize`: the bit at that index.
#[verifier::external_body]
pub(crate) fn row_bit(r: &Row, i: usize) -> (b: bool)
    requires
        i < row_bits(*r).len(),
    ensures
        b == row_bits(*r)[i as int],
{
    r.bits[i]
}

/// Relies on `bitvec::slice::BitSlice::set`: writes one bit and leaves the others alone.
#[verifier::external_body]
fn set_row_bit(r: &mut Row, i: usize, v: bool)
    requires
        i < row_bits(*old(r)).len(),
    ensures
        row_bits(*final(r)) == row_bits(*old(r)).update(i as int, v),
{
    r.bits.set(i, v);
}

/// A row is well formed when it holds eight bits, the last three of them zero.
pub open spec fn row_wf(r: Row) -> bool {
    &&& row_bits(r).len() == 8
    &&& forall|i: int| 5 <= i < 8 ==> !#[trigger] row_bits(r)[i]
}

/// Every row of the shape is well formed.
pub open spec fn shape_wf(s: Shape) -> bool {
    forall|i: int| 0 <= i < 5 ==> #[trigger] row_wf(s[i])
}

/// The position (r, c) lies inside the 5 by 5 frame of a shape.
pub open spec fn in_frame(r: int, c: int) -> bool {
    0 <= r < 5 && 0 <= c < 5
}

/// The occupied cells of a shape, as (row, column) pairs inside its frame.
pub open spec fn cells(s: Shape) -> Set<(int, int)> {
    Set::new(|p: (int, int)| in_frame(p.0, p.1) && row_bits(s[p.0])[p.1])
}

/// The cells mirrored top to bottom: the row order is reversed.
pub open spec fn flipped_v(g: Set<(int, int)>) -> Set<(int, int)> {
    Set::new(|p: (int, int)| in_frame(p.0, p.1) && g.contains((4 - p.0, p.1)))
}

/// The cells mirrored left to right: the column order within each row is reversed.
pub open spec fn flipped_h(g: Set<(int, int)>) -> Set<(int, int)> {
    Set::new(|p: (int, int)| in_frame(p.0, p.1) && g.contains((p.0, 4 - p.1)))
}

/// The cells with rows and columns swapped.
pub open spec fn transposed(g: Set<(int, int)>) -> Set<(int, int)> {
    Set::new(|p: (int, int)| in_frame(p.0, p.1) && g.contains((p.1, p.0)))
}

/// The cells turned a quarter clockwise: (r, c) moves to (c, 4 - r).
pub open spec fn rotated_right(g: Set<(int, int)>) -> Set<(int, int)> {
    Set::new(|p: (int, int)| in_frame(p.0, p.1) && g.contains((4 - p.1, p.0)))
}

/// The cells turned a quarter counter-clockwise: (r, c) moves to (4 - c, r).
pub open spec fn rotated_left(g: Set<(int, int)>) -> Set<(int, int)> {
    Set::new(|p: (int, int)| in_frame(p.0, p.1) && g.contains((p.1, 4 - p.0)))
}

/// Whether the cell in row `r`, column `c` of the shape is occupied.
pub fn occupied(s: &Shape, r: usize, c: usize) -> (b: bool)
    requires
        shape_wf(*s),
        r < 5,
        c < 5,
    ensures
        b == cells(*s).contains((r as int, c as int)),
{
    assert(row_wf(s[r as int]));
    row_bit(&s[r], c)
}

/// Direction of a quarter turn.
#[derive(Debug, Clone, Copy, PartialEq, Eq)]
pub enum RotateDir {
    Right,
    Left,
}

/// Axis of a mirror image.
#[derive(Debug, Clone, Copy, PartialEq, Eq)]
pub enum FlipDir {
    Horizontal,
    Vertical,
}

/// The shape with no occupied cell.
pub fn empty_shape() -> (s: Shape)
    ensures
        shape_wf(s),
        cells(s) == Set::<(int, int)>::empty(),
{
    let s = [row_zero(), row_zero(), row_zero(), row_zero(), row_zero()];
    assert(cells(s) =~= Set::<(int, int)>::empty());
    s
}

/// The row read from right to left.
fn reversed_row(r: &Row) -> (out: Row)
    requires
        row_wf(*r),
    ensures
        row_wf(out),
        forall|c: int| 0 <= c < 5 ==> row_bits(out)[c] == row_bits(*r)[4 - c],
{
    let mut out = row_zero();
    let mut c: usize = 0;
    while c < ROW_LEN
        invariant
            c <= 5,
            row_wf(*r),
            row_bits(out).len() == 8,
            forall|i: int| c <= i < 8 ==> !#[trigger] row_bits(out)[i],
            forall|i: int| 0 <= i < c ==> #[trigger] row_bits(out)[i] == row_bits(*r)[4 - i],
        decreases 5 - c,
    {
        let b = row_bit(r, ROW_LEN - 1 - c);
        set_row_bit(&mut out, c, b);
        c += 1;
    }
    out
}

/// Column `c` of the shape, read top to bottom, as a row.
fn column_as_row(s: &Shape, c: usize) -> (out: Row)
    requires
        shape_wf(*s),
        c < 5,
    ensures
        row_wf(out),
        forall|j: int| 0 <= j < 5 ==> row_bits(out)[j] == row_bits(s[j])[c as int],
{
    let mut out = row_zero();
    let mut j: usize = 0;
    while j < ROW_LEN
        invariant
            j <= 5,
            c < 5,
            shape_wf(*s),
            row_bits(out).len() == 8,
            forall|i: int| j <= i < 8 ==> !#[trigger] row_bits(out)[i],
            forall|i: int| 0 <= i < j ==> #[trigger] row_bits(out)[i] == row_bits(s[i])[c as int],
        decreases 5 - j,
    {
        assert(row_wf(s[j as int]));
        let b = row_bit(&s[j], c);
        set_row_bit(&mut out, j, b);
        j += 1;
    }
    out
}

/// Mirrors a shape: `Vertical` reverses the row order, `Horizontal` reverses
/// each row.
pub fn flip(shape: Shape, dir: FlipDir) -> (out: Shape)
    requires
        shape_wf(shape),
    ensures
        shape_wf(out),
        cells(out) == match dir {
            FlipDir::Vertical => flipped_v(cells(shape)),
            FlipDir::Horizontal => flipped_h(cells(shape)),
        },
{
    match dir {
        FlipDir::Vertical => {
            let out = [shape[4], shape[3], shape[2], shape[1], shape[0]];
            assert(cells(out) =~= flipped_v(cells(shape)));
            out
        },
        FlipDir::Horizontal => {
            assert(row_wf(shape[0]) && row_wf(shape[1]) && row_wf(shape[2]));
            assert(row_wf(shape[3]) && row_wf(shape[4]));
            let out = [
                reversed_row(&shape[0]),
                reversed_row(&shape[1]),
                reversed_row(&shape[2]),
                reversed_row(&shape[3]),
                reversed_row(&shape[4]),
            ];
            assert(cells(out) =~= flipped_h(cells(shape)));
            out
        },
    }
}

/// Swaps the rows and columns of a shape.
pub fn transpose(shape: Shape) -> (out: Shape)
    requires
        shape_wf(shape),
    ensures
        shape_wf(out),
        cells(out) == transposed(cells(shape)),
{
    let out = [
        column_as_row(&shape, 0),
        column_as_row(&shape, 1),
        column_as_row(&shape, 2),
        column_as_row(&shape, 3),
        column_as_row(&shape, 4),
    ];
    assert(cells(out) =~= transposed(cells(shape)));
    out
}

/// Turns a shape a quarter: `Right` is a vertical flip followed by a
/// transpose, `Left` a transpose followed by a vertical flip.
pub fn rotate(shape: Shape, dir: RotateDir) -> (out: Shape)
    requires
        shape_wf(shape),
    ensures
        shape_wf(out),
        cells(out) == match dir {
            RotateDir::Right => rotated_right(cells(shape)),
            RotateDir::Left => rotated_left(cells(shape)),
        },
{
    match dir {
        RotateDir::Right => {
            let out = transpose(flip(shape, FlipDir::Vertical));
            assert(cells(out) =~= rotated_right(cells(shape)));
            out
        },
        RotateDir::Left => {
            let out = flip(transpose(shape), FlipDir::Vertical);
            assert(cells(out) =~= rotated_left(cells(shape)));
            out
        },
    }
}

/// Rotating right four times gives back the shape's cells, and so does
/// rotating left four times.
pub proof fn lemma_rotate_four_times(s: Shape)
    ensures
        rotated_right(rotated_right(rotated_right(rotated_right(cells(s))))) == cells(s),
        rotated_left(rotated_left(rotated_left(rotated_left(cells(s))))) == cells(s),
{
    assert(rotated_right(rotated_right(rotated_right(rotated_right(cells(s))))) =~= cells(s));
    assert(rotated_left(rotated_left(rotated_left(rotated_left(cells(s))))) =~= cells(s));
}

/// Flipping twice on the same axis gives back the shape's cells.
pub proof fn lemma_flip_twice(s: Shape)
    ensures
        flipped_v(flipped_v(cells(s))) == cells(s),
        flipped_h(flipped_h(cells(s))) == cells(s),
{
    assert(flipped_v(flipped_v(cells(s))) =~= cells(s));
    assert(flipped_h(flipped_h(cells(s))) =~= cells(s));
}

/// A right turn is a vertical flip followed by a transpose; a left turn is a
/// transpose followed by a vertical flip.
pub proof fn lemma_rotate_is_flip_and_transpose(s: Shape)
    ensures
        rotated_right(cells(s)) == transposed(flipped_v(cells(s))),
        rotated_left(cells(s)) == flipped_v(transposed(cells(s))),
{
    assert(rotated_right(cells(s)) =~= transposed(flipped_v(cells(s))));
    assert(rotated_left(cells(s)) =~= flipped_v(transposed(cells(s))));
}

/// The cells turned right `n` times.
pub open spec fn turned(g: Set<(int, int)>, n: nat) -> Set<(int, int)>
    decreases n,
{
    if n == 0 {
        g
    } else {
        rotated_right(turned(g, (n - 1) as nat))
    }
}

/// Turning right four times is unfolding `turned` four times.
pub proof fn lemma_turned_four(g: Set<(int, int)>)
    ensures
        turned(g, 4) == rotated_right(rotated_right(rotated_right(rotated_right(g)))),
{
    reveal_with_fuel(turned, 5);
}

/// One of the eight orientations of the cells: mirrored top to bottom or
/// not, then turned right `turns` times.
pub open spec fn orientation(g: Set<(int, int)>, flipped: bool, turns: nat) -> Set<(int, int)> {
    turned(if flipped { flipped_v(g) } else { g }, turns)
}

/// The cells are catalog piece `id` in one of its eight orientations.
pub open spec fn is_orientation_of(g: Set<(int, int)>, id: int) -> bool {
    exists|flipped: bool, turns: nat| turns < 4 && #[trigger] orientation(catalog_cells(id), flipped, turns) == g
}

/// The cells lie inside the 5 by 5 frame.
pub open spec fn within_frame(g: Set<(int, int)>) -> bool {
    forall|p: (int, int)| #[trigger] g.contains(p) ==> in_frame(p.0, p.1)
}

/// Turning right four times gives back any cells inside the frame.
pub proof fn lemma_turn_four_within_frame(g: Set<(int, int)>)
    requires
        within_frame(g),
    ensures
        turned(g, 4) == g,
{
    lemma_turned_four(g);
    assert(rotated_right(rotated_right(rotated_right(rotated_right(g)))) =~= g);
}

/// The eight orientations of cells inside the frame are closed under every
/// turn and flip.
pub proof fn lemma_orientation_closed(g: Set<(int, int)>, flipped: bool, turns: nat)
    requires
        within_frame(g),
        turns < 4,
    ensures
        rotated_right(orientation(g, flipped, turns)) == orientation(g, flipped, (turns + 1) % 4),
        rotated_left(orientation(g, flipped, turns)) == orientation(g, flipped, (turns + 3) % 4),
        flipped_v(orientation(g, flipped, turns)) == orientation(g, !flipped, ((4 - turns) % 4) as nat),
        flipped_h(orientation(g, flipped, turns)) == orientation(g, !flipped, ((6 - turns) % 4) as nat),
{
    reveal_with_fuel(turned, 5);
    let v = flipped_v(g);
    assert(within_frame(v));
    assert(flipped_v(v) =~= g);
    let b = if flipped { v } else { g };
    let c = if flipped { g } else { v };
    assert(flipped_v(b) == c);
    assert(within_frame(b));
    lemma_turn_four_within_frame(b);
    lemma_turn_four_within_frame(c);
    let x = turned(b, turns);
    if turns == 0 {
        assert(rotated_left(b) =~= turned(b, 3));
        assert(flipped_h(b) =~= turned(c, 2));
    } else if turns == 1 {
        assert(rotated_left(turned(b, 1)) =~= b);
        assert(flipped_v(turned(b, 1)) =~= turned(c, 3));
        assert(flipped_h(turned(b, 1)) =~= turned(c, 1));
    } else if turns == 2 {
        assert(rotated_left(turned(b, 2)) =~= turned(b, 1));
        assert(flipped_v(turned(b, 2)) =~= turned(c, 2));
        assert(flipped_h(turned(b, 2)) =~= c);
    } else {
        assert(rotated_right(turned(b, 3)) == turned(b, 4));
        assert(rotated_left(turned(b, 3)) =~= turned(b, 2));
        assert(flipped_v(turned(b, 3)) =~= turned(c, 1));
        assert(flipped_h(turned(b, 3)) =~= turned(c, 3));
    }
}

/// Bit `c` of a row mask, the least significant bit being column 0.
pub open spec fn mask_bit(m: u8, c: int) -> bool {
    (m >> (c as u8)) & 1u8 == 1u8
}

/// The cells that five row masks describe.
pub open spec fn mask_cells(masks: Seq<u8>) -> Set<(int, int)> {
    Set::new(|p: (int, int)| in_frame(p.0, p.1) && mask_bit(masks[p.0], p.1))
}

/// Number of pieces in the catalog.
pub const PIECE_COUNT: usize = 21;

/// The row masks of catalog piece `id`.
pub open spec fn catalog_masks(id: int) -> Seq<u8> {
    if id == 0 {
        seq![0u8, 0u8, 4u8, 0u8, 0u8]
    } else if id == 1 {
        seq![0u8, 4u8, 4u8, 0u8, 0u8]
    } else if id == 2 {
        seq![0u8, 4u8, 4u8, 4u8, 0u8]
    } else if id == 3 {
        seq![0u8, 4u8, 12u8, 0u8, 0u8]
    } else if id == 4 {
        seq![0u8, 4u8, 4u8, 4u8, 4u8]
    } else if id == 5 {
        seq![0u8, 4u8, 4u8, 12u8, 0u8]
    } else if id == 6 {
        seq![0u8, 6u8, 12u8, 0u8, 0u8]
    } else if id == 7 {
        seq![0u8, 12u8, 12u8, 0u8, 0u8]
    } else if id == 8 {
        seq![0u8, 4u8, 12u8, 4u8, 0u8]
    } else if id == 9 {
        seq![4u8, 4u8, 4u8, 4u8, 4u8]
    } else if id == 10 {
        seq![4u8, 4u8, 4u8, 12u8, 0u8]
    } else if id == 11 {
        seq![0u8, 4u8, 4u8, 12u8, 8u8]
    } else if id == 12 {
        seq![0u8, 4u8, 12u8, 4u8, 4u8]
    } else if id == 13 {
        seq![0u8, 0u8, 14u8, 10u8, 0u8]
    } else if id == 14 {
        seq![0u8, 0u8, 14u8, 6u8, 0u8]
    } else if id == 15 {
        seq![0u8, 2u8, 14u8, 2u8, 0u8]
    } else if id == 16 {
        seq![4u8, 4u8, 28u8, 0u8, 0u8]
    } else if id == 17 {
        seq![0u8, 6u8, 12u8, 8u8, 0u8]
    } else if id == 18 {
        seq![0u8, 2u8, 14u8, 8u8, 0u8]
    } else if id == 19 {
        seq![0u8, 2u8, 14u8, 4u8, 0u8]
    } else {
        seq![0u8, 4u8, 14u8, 4u8, 0u8]
    }
}

/// The cells of catalog piece `id` in its canonical orientation.
pub open spec fn catalog_cells(id: int) -> Set<(int, int)> {
    mask_cells(catalog_masks(id))
}

/// The row whose cells are the low five bits of `m`.
fn row_from_mask(m: u8) -> (out: Row)
    ensures
        row_wf(out),
        forall|c: int| 0 <= c < 5 ==> row_bits(out)[c] == mask_bit(m, c),
{
    let mut out = row_zero();
    let mut c: usize = 0;
    while c < ROW_LEN
        invariant
            c <= 5,
            row_bits(out).len() == 8,
            forall|i: int| c <= i < 8 ==> !#[trigger] row_bits(out)[i],
            forall|i: int| 0 <= i < c ==> #[trigger] row_bits(out)[i] == mask_bit(m, i),
        decreases 5 - c,
    {
        let b = (m >> (c as u8)) & 1u8 == 1u8;
        set_row_bit(&mut out, c, b);
        c += 1;
    }
    out
}

/// Builds a shape from five row masks: bit `c` of `masks[r]` is the cell in
/// row `r`, column `c`.
pub fn shape_from_masks(masks: [u8; 5]) -> (s: Shape)
    ensures
        shape_wf(s),
        cells(s) == mask_cells(masks@),
{
    let s = [
        row_from_mask(masks[0]),
        row_from_mask(masks[1]),
        row_from_mask(masks[2]),
        row_from_mask(masks[3]),
        row_from_mask(masks[4]),
    ];
    assert(cells(s) =~= mask_cells(masks@));
    s
}

/// The row masks of catalog piece `id`.
fn catalog_row_masks(id: usize) -> (m: [u8; 5])
    requires
        id < PIECE_COUNT,
    ensures
        m@ == catalog_masks(id as int),
{
    let m: [u8; 5] = match id {
        0 => [0, 0, 4, 0, 0],  // dot
        1 => [0, 4, 4, 0, 0],  // line of two
        2 => [0, 4, 4, 4, 0],  // line of three
        3 => [0, 4, 12, 0, 0],  // L of three
        4 => [0, 4, 4, 4, 4],  // line of four
        5 => [0, 4, 4, 12, 0],  // L of four
        6 => [0, 6, 12, 0, 0],  // zig-zag
        7 => [0, 12, 12, 0, 0],  // square
        8 => [0, 4, 12, 4, 0],  // tee
        9 => [4, 4, 4, 4, 4],  // line of five
        10 => [4, 4, 4, 12, 0],  // L of five
        11 => [0, 4, 4, 12, 8],  // extended zig
        12 => [0, 4, 12, 4, 4],  // extended tee
        13 => [0, 0, 14, 10, 0],  // U
        14 => [0, 0, 14, 6, 0],  // notch square
        15 => [0, 2, 14, 2, 0],  // big tee
        16 => [4, 4, 28, 0, 0],  // big L
        17 => [0, 6, 12, 8, 0],  // stairs
        18 => [0, 2, 14, 8, 0],  // wide zig
        19 => [0, 2, 14, 4, 0],  // chair
        _ => [0, 4, 14, 4, 0],  // plus
    };
    assert(m@ =~= catalog_masks(id as int));
    m
}

/// Catalog piece `id` in its canonical orientation.
pub fn catalog_shape(id: usize) -> (s: Shape)
    requires
        id < PIECE_COUNT,
    ensures
        shape_wf(s),
        cells(s) == catalog_cells(id as int),
{
    shape_from_masks(catalog_row_masks(id))
}

} // verus!
