use std::collections::HashMap;

use p3_sha512::builder::{ConstraintChecker, Interaction};
use p3_sha512::chips::byte::bus::ByteLookupBus;
use p3_sha512::chips::byte::columns::ByteLookupCols;
use p3_sha512::chips::byte::constraints::NUM_ROWS;
use p3_sha512::chips::byte::requester::ByteInteractionAir;
use p3_sha512::chips::byte::utils::shr_carry;
use p3_sha512::chips::byte::{ByteLookupChip, ByteLookupOp, NUM_BYTE_LOOKUP_OPS};
use rand::rngs::StdRng;
use rand::{Rng, SeedableRng};

const BABY_BEAR: u32 = 2013265921;

fn balanced(sends: &[Interaction], chip: &ByteLookupChip) -> bool {
    let air = chip.air;
    let prep = air.preprocessed_trace();
    let muls = chip.generate_trace();
    let mut table = ConstraintChecker::new(BABY_BEAR);
    for (k, row) in prep.iter().enumerate() {
        let local = ByteLookupCols { muls: [muls[4 * k], muls[4 * k + 1], muls[4 * k + 2], muls[4 * k + 3]] };
        air.eval(&mut table, row, &local);
    }
    let mut net: HashMap<(u16, [u32; 5]), i64> = HashMap::new();
    for i in sends {
        *net.entry((i.bus, i.fields)).or_default() += i.count as i64;
    }
    for i in table.interactions.iter() {
        *net.entry((i.bus, i.fields)).or_default() -= i.count as i64;
    }
    net.values().all(|v| *v == 0)
}

fn run_requesters(op: ByteLookupOp, seed: u64) {
    const XOR_REQUESTS: usize = 4;
    const NUM_REQUESTERS: usize = 4;
    const BYTE_XOR_BUS: u16 = 10;
    let mut rng = StdRng::seed_from_u64(seed);
    let mut chip = ByteLookupChip::new(BYTE_XOR_BUS);
    let mut builder = ConstraintChecker::new(BABY_BEAR);
    for _ in 0..NUM_REQUESTERS {
        let requester = ByteInteractionAir::new(BYTE_XOR_BUS, op);
        for _ in 0..XOR_REQUESTS {
            let x: u8 = rng.gen();
            let y: u8 = rng.gen();
            let row = requester.request_row(&mut chip, x, y);
            assert_eq!((row.x, row.y), (x as u32, y as u32));
            requester.eval(&mut builder, &row);
        }
    }
    assert!(builder.holds);
    assert_eq!(builder.interactions.len(), NUM_REQUESTERS * XOR_REQUESTS);
    assert!(balanced(&builder.interactions, &chip));
}

#[test]
fn test_xor() {
    run_requesters(ByteLookupOp::Xor, 1);
}

#[test]
fn test_shr_carry() {
    run_requesters(ByteLookupOp::ShrCarry, 2);
}

#[test]
fn and_requests_balance() {
    run_requesters(ByteLookupOp::And, 3);
}

#[test]
fn unanswered_lookup_does_not_balance() {
    let chip = ByteLookupChip::new(10);
    let mut builder = ConstraintChecker::new(BABY_BEAR);
    ByteInteractionAir::new(10, ByteLookupOp::Xor).eval(
        &mut builder,
        &p3_sha512::chips::byte::requester::ByteInteractionCols { x: 1, y: 2, res: [3, 0] },
    );
    assert!(!balanced(&builder.interactions, &chip));
}

#[test]
fn request_results_and_counts() {
    let mut chip = ByteLookupChip::new(10);
    assert_eq!(chip.request(0b1100, 0b1010, ByteLookupOp::Xor), vec![0b0110, 0]);
    assert_eq!(chip.request(0b1100, 0b1010, ByteLookupOp::And), vec![0b1000, 0]);
    assert_eq!(chip.request(0b1011_0110, 3, ByteLookupOp::ShrCarry), vec![0b1_0110, 0b110]);
    assert_eq!(chip.request(7, 9, ByteLookupOp::U8RangeCheck), vec![0, 0]);
    chip.request(0b1100, 0b1010, ByteLookupOp::Xor);
    let trace = chip.generate_trace();
    assert_eq!(trace.len(), NUM_ROWS * NUM_BYTE_LOOKUP_OPS);
    let idx = |x: usize, y: usize, op: usize| (x * 256 + y) * 4 + op;
    assert_eq!(trace[idx(0b1100, 0b1010, 0)], 2);
    assert_eq!(trace[idx(0b1100, 0b1010, 2)], 1);
    assert_eq!(trace[idx(0b1011_0110, 3, 1)], 1);
    assert_eq!(trace[idx(7, 9, 3)], 1);
    assert_eq!(trace.iter().map(|c| *c as u64).sum::<u64>(), 5);
    chip.clear();
    assert!(chip.generate_trace().iter().all(|c| *c == 0));
}

#[test]
fn shr_carry_values() {
    assert_eq!(shr_carry(0b1011_0110, 3), (0b1_0110, 0b110));
    assert_eq!(shr_carry(0xff, 0), (0xff, 0));
    assert_eq!(shr_carry(0xff, 8), (0xff, 0));
    assert_eq!(shr_carry(0x80, 7), (1, 0));
}

#[test]
fn opcodes() {
    let all = ByteLookupOp::all();
    assert_eq!(all.len(), NUM_BYTE_LOOKUP_OPS);
    assert_eq!(all[0], ByteLookupOp::Xor);
    assert_eq!(ByteLookupOp::ShrCarry.as_field(), 1);
    assert_eq!(ByteLookupOp::U8RangeCheck.as_u8(), 3);
    let chip = ByteLookupChip::new(10);
    assert_eq!(chip.current_trace_height(), 65536);
    assert_eq!(chip.trace_width(), 4);
    assert_eq!(chip.bus().0, 10);
}

#[test]
fn preprocessed_table_rows() {
    let chip = ByteLookupChip::new(10);
    let prep = chip.air.preprocessed_trace();
    assert_eq!(prep.len(), NUM_ROWS);
    let row = &prep[0xb6 * 256 + 3];
    assert_eq!((row.x, row.y), (0xb6, 3));
    assert_eq!(row.xor, 0xb6 ^ 3);
    assert_eq!(row.and, 0xb6 & 3);
    assert_eq!((row.shr, row.shr_carry), (0xb6 >> 3, 0xb6 & 7));
}

#[test]
fn bus_messages() {
    let bus = ByteLookupBus(10);
    let mut b = ConstraintChecker::new(BABY_BEAR);
    bus.send(1, 2, ByteLookupOp::Xor, vec![3, 0]).eval(&mut b, 1);
    bus.receive(1, 2, ByteLookupOp::Xor, vec![3, 0]).eval(&mut b, 1);
    bus.push(5, 6, ByteLookupOp::ShrCarry, vec![7, 8], true).eval(&mut b, 4);
    assert!(b.holds);
    assert_eq!(b.interactions.len(), 3);
    assert_eq!(b.interactions[0].fields, [1, 2, 0, 3, 0]);
    assert!(b.interactions[0].is_send);
    assert!(!b.interactions[1].is_send);
    assert_eq!(b.interactions[2].fields, [5, 6, 1, 7, 8]);
    assert_eq!(b.interactions[2].count, 4);
}
