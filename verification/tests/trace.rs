use p3_sha512::air::{ShaAir, BUS_INDEX};
use p3_sha512::builder::{ConstraintChecker, Interaction};
use p3_sha512::chips::byte::columns::ByteLookupCols;
use p3_sha512::chips::byte::ByteLookupChip;
use std::collections::HashMap;
use p3_sha512::columns::ShaCols;
use p3_sha512::encoder::Encoder;
use rand::rngs::StdRng;
use rand::{Rng, SeedableRng};
use sha2::Digest;

/// The digest on the last row of block `n`.
fn digest_at(rows: &[ShaCols<u32>], n: usize) -> Vec<u8> {
    let row = &rows[64 * n + 63];
    let mut d = Vec::new();
    for j in 0..8 {
        for l in (0..4).rev() {
            d.push(row.final_hash[j][l] as u8);
        }
    }
    d
}

#[test]
fn test_sha256() {
    let mut byte_chip = ByteLookupChip::new(BUS_INDEX);
    let air = ShaAir::new();
    let trace = air.generate_trace_rows(&mut byte_chip, 1);
    // One random block and the padding block.
    assert_eq!(trace.len(), 128);
    let mut rng = StdRng::seed_from_u64(1);
    let mut bytes = [0u8; 64];
    rng.fill(&mut bytes);
    assert_eq!(digest_at(&trace, 1), sha2::Sha256::digest(bytes).to_vec());
    // The trace meets the AIR and its lookups balance against the byte table.
    let builder = eval_trace(&air, &trace);
    assert!(builder.holds);
    assert!(balanced(&builder.interactions, &byte_chip));
}

#[test]
fn trace_of_three_blocks() {
    let mut byte_chip = ByteLookupChip::new(BUS_INDEX);
    let air = ShaAir::new();
    let blocks: Vec<[u8; 64]> = (0..3u8).map(|b| [b.wrapping_mul(37).wrapping_add(5); 64]).collect();
    let trace = air.generate_trace_rows_for_blocks(&mut byte_chip, blocks.clone());
    // Three blocks and the padding block: four blocks of 64 rows.
    assert_eq!(trace.len(), 256);
    let msg: Vec<u8> = blocks.iter().flat_map(|b| b.iter().copied()).collect();
    assert_eq!(digest_at(&trace, 3), sha2::Sha256::digest(&msg).to_vec());
}

#[test]
fn trace_rows_hold_rounds() {
    let mut byte_chip = ByteLookupChip::new(BUS_INDEX);
    let air = ShaAir::new();
    let blocks = vec![[0x61u8; 64]];
    let trace = air.generate_trace_rows_for_blocks(&mut byte_chip, blocks);
    for (i, row) in trace.iter().enumerate() {
        let r = i % 64;
        for j in 0..64 {
            assert_eq!(row.step_flags[j], (j == r) as u32);
        }
        assert_eq!(row.first_16_steps, (r < 16) as u32);
        assert_eq!(row.export, 0);
        if r != 63 {
            assert!(row.final_hash.iter().all(|w| w.iter().all(|l| *l == 0)));
        }
        if r < 63 {
            assert_eq!(row.seed, trace[i + 1].prev_seed);
        }
        assert!(row.round_idx.iter().sum::<u32>() <= 2);
    }
    // Zero blocks pad the trace: with one block and the padding there are two.
    assert_eq!(trace.len(), 128);
}

#[test]
fn round_encoder_points() {
    let air = ShaAir::new();
    let enc: &Encoder = &air.round_idx_encoder;
    assert_eq!(enc.var_cnt, 10);
    assert_eq!(enc.flag_cnt, 64);
    assert_eq!(enc.pts.len(), 66);
    assert_eq!(enc.get_flag_pt(0), vec![0u32; 10]);
    let p1 = enc.get_flag_pt(1);
    assert_eq!(p1, vec![0, 0, 0, 0, 0, 0, 0, 0, 0, 1]);
    for i in 1..64 {
        assert!(enc.get_flag_pt(i - 1) < enc.get_flag_pt(i));
    }
}

#[test]
fn encoder_with_reserved_origin() {
    let enc = Encoder::new(3, 1, true);
    assert_eq!(enc.var_cnt, 3);
    assert_eq!(enc.pts.len(), 4);
    assert_eq!(enc.get_flag_pt(0), vec![0, 0, 1]);
    assert_eq!(enc.get_flag_pt(2), vec![1, 0, 0]);
}

const BABY_BEAR: u32 = 2013265921;

/// Evaluate the AIR on every row followed by the next, the first row after the last.
fn eval_trace(air: &ShaAir, rows: &[ShaCols<u32>]) -> ConstraintChecker {
    let mut builder = ConstraintChecker::new(BABY_BEAR);
    let n = rows.len();
    for k in 0..n {
        air.eval(&mut builder, &rows[k], &rows[(k + 1) % n], k == 0, k + 1 < n);
    }
    builder
}

fn balanced(sends: &[Interaction], chip: &ByteLookupChip) -> bool {
    let table_air = chip.air;
    let prep = table_air.preprocessed_trace();
    let muls = chip.generate_trace();
    let mut table = ConstraintChecker::new(BABY_BEAR);
    for (k, row) in prep.iter().enumerate() {
        let local = ByteLookupCols { muls: [muls[4 * k], muls[4 * k + 1], muls[4 * k + 2], muls[4 * k + 3]] };
        table_air.eval(&mut table, row, &local);
    }
    let mut net: HashMap<(u16, [u32; 5]), i64> = HashMap::new();
    for i in sends {
        *net.entry((i.bus, i.fields)).or_default() += i.count as i64;
    }
    for i in table.interactions.iter() {
        *net.entry((i.bus, i.fields)).or_default() -= i.count as i64;
    }
    net.values().all(|v| *v == 0)
}

#[test]
fn generated_trace_meets_the_air() {
    let mut byte_chip = ByteLookupChip::new(BUS_INDEX);
    let air = ShaAir::new();
    let trace = air.generate_trace_rows(&mut byte_chip, 1);
    let builder = eval_trace(&air, &trace);
    assert!(builder.holds);
    assert!(balanced(&builder.interactions, &byte_chip));
}

#[test]
fn three_block_trace_meets_the_air() {
    let mut byte_chip = ByteLookupChip::new(BUS_INDEX);
    let air = ShaAir::new();
    let blocks: Vec<[u8; 64]> = (0..3u8).map(|b| [b.wrapping_mul(91).wrapping_add(17); 64]).collect();
    let trace = air.generate_trace_rows_for_blocks(&mut byte_chip, blocks);
    let builder = eval_trace(&air, &trace);
    assert!(builder.holds);
    assert!(balanced(&builder.interactions, &byte_chip));
}

#[test]
fn tampered_trace_fails_the_air() {
    let mut byte_chip = ByteLookupChip::new(BUS_INDEX);
    let air = ShaAir::new();
    let mut trace = air.generate_trace_rows_for_blocks(&mut byte_chip, vec![[7u8; 64]]);
    // A final hash that is not the sum of the state and the chaining value.
    trace[63].final_hash[0][0] ^= 1;
    assert!(!eval_trace(&air, &trace).holds);

    let mut trace = air.generate_trace_rows_for_blocks(&mut byte_chip, vec![[7u8; 64]]);
    // A state that does not flow to the next row.
    trace[10].seed[2][1] ^= 1;
    assert!(!eval_trace(&air, &trace).holds);

    let mut trace = air.generate_trace_rows_for_blocks(&mut byte_chip, vec![[7u8; 64]]);
    // A round index that is not the point of the row's round.
    trace[5].round_idx = trace[6].round_idx;
    assert!(!eval_trace(&air, &trace).holds);
}
