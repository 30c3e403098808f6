use std::collections::HashMap;

use p3_sha512::bits_air::rotr_air::{ExampleAir as RotateAir, RightRotateCols};
use p3_sha512::bits_air::small_sig_air::{SmallSigma0Air, SmallSigma1Air, BUS_INDEX};
use p3_sha512::builder::{ConstraintChecker, Interaction};
use p3_sha512::chips::byte::columns::ByteLookupCols;
use p3_sha512::chips::byte::ByteLookupChip;
use p3_sha512::gadgets::add::{AddGadget, ExampleAir as AddAir, EXAMPLE_NUM_ROWS};
use rand::rngs::StdRng;
use rand::{Rng, SeedableRng};

const BABY_BEAR: u32 = 2013265921;

/// Every key sent is received by the byte table as often as it is sent.
fn balanced(sends: &[Interaction], chip: &ByteLookupChip) -> bool {
    balanced_times(sends, 1, chip)
}

/// Every key of `sends`, sent `times` times over, is received by the byte
/// table as often as it is sent.
fn balanced_times(sends: &[Interaction], times: i64, chip: &ByteLookupChip) -> bool {
    let air = chip.air;
    let prep = air.preprocessed_trace();
    let muls = chip.generate_trace();
    let mut table = ConstraintChecker::new(BABY_BEAR);
    for (k, row) in prep.iter().enumerate() {
        let local = ByteLookupCols { muls: [muls[4 * k], muls[4 * k + 1], muls[4 * k + 2], muls[4 * k + 3]] };
        air.eval(&mut table, row, &local);
    }
    let mut net: HashMap<(u16, [u32; 5]), i64> = HashMap::new();
    for i in sends {
        assert!(i.is_send);
        *net.entry((i.bus, i.fields)).or_default() += times * i.count as i64;
    }
    for i in table.interactions.iter() {
        assert!(!i.is_send);
        *net.entry((i.bus, i.fields)).or_default() -= i.count as i64;
    }
    net.values().all(|v| *v == 0)
}

#[test]
fn test_right_rotate() {
    let mut rng = StdRng::seed_from_u64(7);
    let mut chip = ByteLookupChip::new(10);
    let input: u32 = rng.gen();
    let rotation: usize = rng.gen_range(1..31);
    let air = RotateAir { input, rotation };
    let row = air.generate_trace_rows(&mut chip, input, rotation);
    assert_eq!(row.value, input.rotate_right(rotation as u32).to_le_bytes().map(|b| b as u32));
    let mut builder = ConstraintChecker::new(BABY_BEAR);
    air.eval(&mut builder, &row);
    assert!(builder.holds);
    assert!(balanced(&builder.interactions, &chip));
}

#[test]
fn right_rotate_rejects_a_wrong_row() {
    let mut chip = ByteLookupChip::new(10);
    let air = RotateAir { input: 0x1234_5678, rotation: 12 };
    let mut row = air.generate_trace_rows(&mut chip, 0x1234_5678, 12);
    row.value[0] ^= 1;
    let mut builder = ConstraintChecker::new(BABY_BEAR);
    air.eval(&mut builder, &row);
    assert!(!builder.holds);
}

#[test]
fn rotate_constants() {
    assert_eq!(RightRotateCols::<u32>::nb_bytes_to_shift(10), 1);
    assert_eq!(RightRotateCols::<u32>::nb_bits_to_shift(10), 2);
    assert_eq!(RightRotateCols::<u32>::carry_multiplier(10), 64);
    assert_eq!(RightRotateCols::<u32>::nb_bytes_to_shift(31), 3);
    assert_eq!(RightRotateCols::<u32>::nb_bits_to_shift(31), 7);
    assert_eq!(RightRotateCols::<u32>::carry_multiplier(31), 2);
}

#[test]
fn test_small_sig() {
    let mut rng = StdRng::seed_from_u64(11);
    let mut chip = ByteLookupChip::new(BUS_INDEX);
    let input: u32 = rng.gen();
    let air = SmallSigma0Air {};
    let row = air.generate_trace_rows(&mut chip, input);
    let expected = input.rotate_right(7) ^ input.rotate_right(18) ^ (input >> 3);
    assert_eq!(row.xor3.value, expected.to_le_bytes().map(|b| b as u32));
    let mut builder = ConstraintChecker::new(BABY_BEAR);
    air.eval(&mut builder, &row);
    assert!(builder.holds);
    assert!(balanced(&builder.interactions, &chip));
}

#[test]
fn small_sigma1_row() {
    let mut chip = ByteLookupChip::new(BUS_INDEX);
    let input: u32 = 0xdead_beef;
    let air = SmallSigma1Air {};
    let row = air.generate_trace_rows(&mut chip, input);
    let expected = input.rotate_right(17) ^ input.rotate_right(19) ^ (input >> 10);
    assert_eq!(row.xor3.value, expected.to_le_bytes().map(|b| b as u32));
    // The constraints of this AIR are those of the rotations by 7 and 18 and
    // the shift by 3: the row of σ0 meets them, the row of σ1 does not.
    let mut chip0 = ByteLookupChip::new(BUS_INDEX);
    let row0 = SmallSigma0Air {}.generate_trace_rows(&mut chip0, input);
    let mut builder = ConstraintChecker::new(BABY_BEAR);
    air.eval(&mut builder, &row0);
    assert!(builder.holds);
    assert!(balanced(&builder.interactions, &chip0));
    let mut builder = ConstraintChecker::new(BABY_BEAR);
    air.eval(&mut builder, &row);
    assert!(!builder.holds);
}

#[test]
fn test_add() {
    let mut rng = StdRng::seed_from_u64(5);
    let mut chip = ByteLookupChip::new(10);
    let mut air = AddAir::<5> { inputs: [0u32; 5] };
    let rows = air.generate_trace_rows(&mut rng, &mut chip);
    assert_eq!(rows.len(), EXAMPLE_NUM_ROWS);
    // The words are drawn from the generator, below u32::MAX / 5 - 1.
    assert!(air.inputs.iter().all(|x| *x < u32::MAX / 5 - 1));
    assert!(air.inputs.iter().any(|x| *x != 0));
    assert!(air.inputs.iter().any(|x| *x != air.inputs[0]));
    let sum = air.inputs.iter().fold(0u32, |a, b| a.wrapping_add(*b));
    assert_eq!(rows[0].value, sum.to_le_bytes().map(|b| b as u32));
    // Every row meets the constraints and sends the same lookups.
    let mut first = ConstraintChecker::new(BABY_BEAR);
    air.eval(&mut first, &rows[0]);
    assert!(first.holds);
    for row in rows.iter() {
        let mut builder = ConstraintChecker::new(BABY_BEAR);
        air.eval(&mut builder, row);
        assert!(builder.holds);
        assert!(builder.interactions == first.interactions);
    }
    // The lookups of all the rows balance against the byte table.
    assert!(balanced_times(&first.interactions, EXAMPLE_NUM_ROWS as i64, &chip));
}

#[test]
fn add_gadget_carries() {
    let mut chip = ByteLookupChip::new(10);
    let mut row = AddGadget::<u32, 2>::new();
    let r = row.populate(&mut chip, [0xffff_ffff, 1]);
    assert_eq!(r, 0);
    assert_eq!(row.value, [0, 0, 0, 0]);
    assert_eq!(row.carry, [1, 1, 1, 1]);
    let air = AddAir::<2> { inputs: [0xffff_ffff, 1] };
    let mut builder = ConstraintChecker::new(BABY_BEAR);
    air.eval(&mut builder, &row);
    assert!(builder.holds);
    assert!(balanced(&builder.interactions, &chip));
}

#[test]
fn add_eval_many_summands() {
    // Three hundred summands of one each: the sum is 300 = 0x12c, limb 0 of
    // the sum is 0x2c and the carry out of it is 1.
    let mut cols = AddGadget::<u32, 300>::new();
    cols.value = [0x2c, 1, 0, 0];
    cols.carry = [1, 0, 0, 0];
    cols.is_carry[1][0] = 1;
    for i in 1..4 {
        cols.is_carry[0][i] = 1;
    }
    let inputs = [[1u32, 0, 0, 0]; 300];
    let mut builder = ConstraintChecker::new(BABY_BEAR);
    AddGadget::eval(&mut builder, 10, inputs, &cols);
    assert!(builder.holds);
    assert_eq!(builder.interactions.len(), 2 * 301);
    // A wrong carry is caught.
    cols.carry[0] = 2;
    let mut builder = ConstraintChecker::new(BABY_BEAR);
    AddGadget::eval(&mut builder, 10, inputs, &cols);
    assert!(!builder.holds);
}
