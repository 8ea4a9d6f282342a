//! The Salsa20 mixing primitive: quarter-round, column-round, row-round and
//! double-round on a 16-word state matrix.
use vstd::prelude::*;

verus! {

/// Circular left rotation of a 32-bit word by `n` bits, `0 < n < 32`.
pub open spec fn rotl(x: u32, n: u32) -> u32 {
    (x << n) | (x >> (32 - n) as u32)
}

/// Addition modulo 2^32.
pub open spec fn add32(x: u32, y: u32) -> u32 {
    ((x + y) % 0x1_0000_0000) as u32
}

/// The quarter-round on four words, returned in the order they were given.
#[verifier::opaque]
pub open spec fn quarter(y0: u32, y1: u32, y2: u32, y3: u32) -> Seq<u32> {
    let z1 = y1 ^ rotl(add32(y0, y3), 7);
    let z2 = y2 ^ rotl(add32(z1, y0), 9);
    let z3 = y3 ^ rotl(add32(z2, z1), 13);
    let z0 = y0 ^ rotl(add32(z3, z2), 18);
    seq![z0, z1, z2, z3]
}

fn rotate(x: u32, n: u32) -> (r: u32)
    requires
        0 < n < 32,
    ensures
        r == rotl(x, n),
{
    (x << n) | (x >> (32 - n))
}

/// Applies the quarter-round to `(y0, y1, y2, y3)`.
pub fn quarterround(y0: u32, y1: u32, y2: u32, y3: u32) -> (r: [u32; 4])
    ensures
        r@ == quarter(y0, y1, y2, y3),
{
    let z1 = y1 ^ rotate(y0.wrapping_add(y3), 7);
    let z2 = y2 ^ rotate(z1.wrapping_add(y0), 9);
    let z3 = y3 ^ rotate(z2.wrapping_add(z1), 13);
    let z0 = y0 ^ rotate(z3.wrapping_add(z2), 18);
    let r = [z0, z1, z2, z3];
    proof {
        reveal(quarter);
    }
    assert(r@ =~= quarter(y0, y1, y2, y3));
    r
}

/// The second word out of a quarter-round does not depend on its third input.
pub proof fn lemma_quarter_second_word(y0: u32, y1: u32, y2: u32, y3: u32, w: u32)
    ensures
        quarter(y0, y1, y2, y3)[1] == quarter(y0, y1, w, y3)[1],
{
    reveal(quarter);
}

/// The column-round: the quarter-round on each column of the row-major
/// matrix, each column read downwards from its diagonal word.
pub open spec fn column_round(y: Seq<u32>) -> Seq<u32> {
    let a = quarter(y[0], y[4], y[8], y[12]);
    let b = quarter(y[5], y[9], y[13], y[1]);
    let c = quarter(y[10], y[14], y[2], y[6]);
    let d = quarter(y[15], y[3], y[7], y[11]);
    seq![
        a[0], b[3], c[2], d[1],
        a[1], b[0], c[3], d[2],
        a[2], b[1], c[0], d[3],
        a[3], b[2], c[1], d[0],
    ]
}

/// The row-round: the quarter-round on each row of the matrix, each row read
/// rightwards from its diagonal word.
pub open spec fn row_round(y: Seq<u32>) -> Seq<u32> {
    let a = quarter(y[0], y[1], y[2], y[3]);
    let b = quarter(y[5], y[6], y[7], y[4]);
    let c = quarter(y[10], y[11], y[8], y[9]);
    let d = quarter(y[15], y[12], y[13], y[14]);
    seq![
        a[0], a[1], a[2], a[3],
        b[3], b[0], b[1], b[2],
        c[2], c[3], c[0], c[1],
        d[1], d[2], d[3], d[0],
    ]
}

/// A double-round: a column-round followed by a row-round.
pub open spec fn double_round(y: Seq<u32>) -> Seq<u32> {
    row_round(column_round(y))
}

/// Applies the column-round to the matrix `y`.
pub fn columnround(y: [u32; 16]) -> (r: [u32; 16])
    ensures
        r@ == column_round(y@),
{
    let a = quarterround(y[0], y[4], y[8], y[12]);
    let b = quarterround(y[5], y[9], y[13], y[1]);
    let c = quarterround(y[10], y[14], y[2], y[6]);
    let d = quarterround(y[15], y[3], y[7], y[11]);
    let r = [
        a[0], b[3], c[2], d[1],
        a[1], b[0], c[3], d[2],
        a[2], b[1], c[0], d[3],
        a[3], b[2], c[1], d[0],
    ];
    assert(r@ =~= column_round(y@));
    r
}

/// Applies the row-round to the matrix `y`.
pub fn rowround(y: [u32; 16]) -> (r: [u32; 16])
    ensures
        r@ == row_round(y@),
{
    let a = quarterround(y[0], y[1], y[2], y[3]);
    let b = quarterround(y[5], y[6], y[7], y[4]);
    let c = quarterround(y[10], y[11], y[8], y[9]);
    let d = quarterround(y[15], y[12], y[13], y[14]);
    let r = [
        a[0], a[1], a[2], a[3],
        b[3], b[0], b[1], b[2],
        c[2], c[3], c[0], c[1],
        d[1], d[2], d[3], d[0],
    ];
    assert(r@ =~= row_round(y@));
    r
}

/// Applies one double-round to the matrix `y`.
pub fn doubleround(y: [u32; 16]) -> (r: [u32; 16])
    ensures
        r@ == double_round(y@),
{
    rowround(columnround(y))
}

} // verus!
