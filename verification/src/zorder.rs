//! Z-order (Morton) addressing of the cells of a page.
//!
//! The two 6-bit coordinates of a cell are interleaved bit by bit into one
//! 12-bit index: bit `i` of `y` lands on bit `2 i` of the index and bit `i` of
//! `x` on bit `2 i + 1`.

use vstd::prelude::*;

verus! {

/// Cells along one side of a page.
pub const PAGE_WIDTH: u32 = 64;

/// Cells in a page.
pub const PAGE_CELLS: u32 = 4096;

/// Bit `i` of `v`, as 0 or 1.
pub open spec fn bit(v: u32, i: u32) -> u32 {
    (v >> i) & 1
}

/// The index of the cell at `(x, y)`: the bits of `y` on the even positions,
/// the bits of `x` on the odd ones.
pub open spec fn interleave(x: u32, y: u32) -> u32 {
    bit(y, 0) | (bit(x, 0) << 1) | (bit(y, 1) << 2) | (bit(x, 1) << 3) | (bit(y, 2) << 4) | (bit(
        x,
        2,
    ) << 5) | (bit(y, 3) << 6) | (bit(x, 3) << 7) | (bit(y, 4) << 8) | (bit(x, 4) << 9) | (bit(
        y,
        5,
    ) << 10) | (bit(x, 5) << 11)
}

/// The `x` coordinate of the cell with index `z`: the odd bits of `z`.
pub open spec fn column_of(z: u32) -> u32 {
    bit(z, 1) | (bit(z, 3) << 1) | (bit(z, 5) << 2) | (bit(z, 7) << 3) | (bit(z, 9) << 4) | (bit(
        z,
        11,
    ) << 5)
}

/// The `y` coordinate of the cell with index `z`: the even bits of `z`.
pub open spec fn row_of(z: u32) -> u32 {
    bit(z, 0) | (bit(z, 2) << 1) | (bit(z, 4) << 2) | (bit(z, 6) << 3) | (bit(z, 8) << 4) | (bit(
        z,
        10,
    ) << 5)
}

/// Decoding an encoded coordinate pair gives the pair back, and the index of
/// a pair inside the page lies inside the page.
pub proof fn lemma_decode_encode(x: u32, y: u32)
    by (bit_vector)
    requires
        x < 64,
        y < 64,
    ensures
        interleave(x, y) < 4096,
        column_of(interleave(x, y)) == x,
        row_of(interleave(x, y)) == y,
{
}

/// Encoding the coordinates of an index gives the index back, and the
/// coordinates of an index inside the page lie inside the page.
pub proof fn lemma_encode_decode(z: u32)
    by (bit_vector)
    requires
        z < 4096,
    ensures
        column_of(z) < 64,
        row_of(z) < 64,
        interleave(column_of(z), row_of(z)) == z,
{
}

/// Two cells of the page with the same index are the same cell.
pub proof fn lemma_interleave_injective(x1: u32, y1: u32, x2: u32, y2: u32)
    requires
        x1 < 64,
        y1 < 64,
        x2 < 64,
        y2 < 64,
        interleave(x1, y1) == interleave(x2, y2),
    ensures
        x1 == x2,
        y1 == y2,
{
    lemma_decode_encode(x1, y1);
    lemma_decode_encode(x2, y2);
}

/// Spreads the low six bits of `v` over the even positions of the result.
fn spread(v: u32) -> (r: u32)
    requires
        v < 64,
    ensures
        r == interleave(0, v),
        r < 2048,
        interleave(v, 0) == r << 1,
{
    let a: u32 = (v | (v << 4)) & 0x0F0F;
    let b: u32 = (a | (a << 2)) & 0x3333;
    let r: u32 = (b | (b << 1)) & 0x5555;
    assert(r == interleave(0, v) && r < 2048 && interleave(v, 0) == r << 1) by (bit_vector)
        requires
            v < 64,
            a == (v | (v << 4)) & 0x0F0F,
            b == (a | (a << 2)) & 0x3333,
            r == (b | (b << 1)) & 0x5555,
    ;
    r
}

/// Gathers the even bits of the 12-bit value `v` into the low six bits.
fn gather(v: u32) -> (r: u32)
    requires
        v < 4096,
    ensures
        r == row_of(v),
        r < 64,
{
    let a: u32 = v & 0x0555;
    let b: u32 = (a | (a >> 1)) & 0x0333;
    let c: u32 = (b | (b >> 2)) & 0x0F0F;
    let r: u32 = (c | (c >> 4)) & 0x003F;
    assert(r == row_of(v) && r < 64) by (bit_vector)
        requires
            v < 4096,
            a == v & 0x0555,
            b == (a | (a >> 1)) & 0x0333,
            c == (b | (b >> 2)) & 0x0F0F,
            r == (c | (c >> 4)) & 0x003F,
    ;
    r
}

/// The linear index of the cell at column `x` and row `y`.
pub fn xy_to_z(x: u32, y: u32) -> (z: u32)
    requires
        x < 64,
        y < 64,
    ensures
        z == interleave(x, y),
        z < 4096,
        column_of(z) == x,
        row_of(z) == y,
{
    let even: u32 = spread(y);
    let odd: u32 = spread(x);
    let z: u32 = even | (odd << 1);
    assert(z == interleave(x, y)) by (bit_vector)
        requires
            x < 64,
            y < 64,
            even == interleave(0, y),
            odd << 1 == interleave(x, 0),
            z == even | (odd << 1),
    ;
    proof {
        lemma_decode_encode(x, y);
    }
    z
}

/// The column and row of the cell with linear index `z`.
pub fn z_to_xy(z: u32) -> (xy: (u32, u32))
    requires
        z < 4096,
    ensures
        xy.0 == column_of(z),
        xy.1 == row_of(z),
        xy.0 < 64,
        xy.1 < 64,
        interleave(xy.0, xy.1) == z,
{
    let y: u32 = gather(z);
    assert(z >> 1 < 4096 && row_of(z >> 1) == column_of(z)) by (bit_vector)
        requires
            z < 4096,
    ;
    let x: u32 = gather(z >> 1);
    proof {
        lemma_encode_decode(z);
    }
    (x, y)
}

} // verus!
