use vstd::prelude::*;

verus! {

/// The main columns of the byte lookup table: the multiplicity of each
/// operation on the row's pair of bytes.
#[derive(Clone, Copy, Debug)]
pub struct ByteLookupCols<T> {
    pub muls: [T; 4],
}

/// The fixed columns of the byte lookup table: a pair of bytes and the
/// results of each operation on it.
#[derive(Clone, Copy, Debug)]
pub struct ByteLookupPreprocessedCols<T> {
    pub x: T,
    pub y: T,
    /// XOR result (x ⊕ y)
    pub xor: T,
    /// `x` shifted right by `y % 8` bits.
    pub shr: T,
    /// The bits of `x` shifted out.
    pub shr_carry: T,
    /// AND result (x & y)
    pub and: T,
}

/// Number of main columns of the byte lookup table.
pub const NUM_BYTE_LOOKUP_COLS: usize = 4;

/// Number of fixed columns of the byte lookup table.
pub const NUM_BYTE_LOOKUP_PREPROCESSED_COLS: usize = 6;

} // verus!
