use vstd::prelude::*;

verus! {

/// The result of `shr_carry`: the byte shifted right by `rotation % 8` bits,
/// and the bits shifted out (the low `rotation % 8` bits of the byte).
pub open spec fn shr_carry_spec(input: u8, rotation: u8) -> (u8, u8) {
    let c = rotation & 7;
    (input >> c, input & (((1u8 << c) as int - 1) as u8))
}

/// Shift a byte right by `rotation % 8` bits, returning the shifted value and
/// the carry (the bits that were shifted out).
pub fn shr_carry(input: u8, rotation: u8) -> (r: (u8, u8))
    ensures
        r == shr_carry_spec(input, rotation),
{
    let c_mod = rotation & 0x7;
    assert(rotation & 7 < 8) by (bit_vector);
    if c_mod != 0 {
        let res = input >> c_mod;
        let carry = (input << (8 - c_mod)) >> (8 - c_mod);
        assert(carry == input & (((1u8 << c_mod) as int - 1) as u8)) by (bit_vector)
            requires
                0 < c_mod < 8,
                carry == (input << (8 - c_mod) as u8) >> (8 - c_mod) as u8,
        ;
        (res, carry)
    } else {
        assert(input >> c_mod == input && input & (((1u8 << c_mod) as int - 1) as u8) == 0) by (bit_vector)
            requires
                c_mod == 0,
        ;
        (input, 0u8)
    }
}

} // verus!
