use p3_sha512::builder::ConstraintChecker;
use p3_sha512::encoder::Encoder;
use p3_sha512::utils::{compose, compose_be, compose_le, get_flag_pt_array, limbs_into_u32};

const BABY_BEAR: u32 = 2013265921;

#[test]
fn flag_expressions_select_their_point() {
    let enc = Encoder::new(64, 2, false);
    for f in [0usize, 1, 17, 40, 63] {
        let pt = enc.get_flag_pt(f);
        for g in [0usize, 5, 17, 40, 63] {
            assert_eq!(enc.get_flag_expr(g, &pt, BABY_BEAR), (f == g) as u32, "flag {} at point of {}", g, f);
        }
    }
}

#[test]
fn flag_combinations_pick_the_value_of_the_flag() {
    let enc = Encoder::new(64, 2, false);
    let pairs: Vec<(usize, u32)> = (16..64).map(|r| (r, 1000 + r as u32)).collect();
    assert_eq!(enc.flag_with_expr(&enc.get_flag_pt(20), &pairs, BABY_BEAR), 1020);
    assert_eq!(enc.flag_with_expr(&enc.get_flag_pt(3), &pairs, BABY_BEAR), 0);
    let vals: Vec<(usize, usize)> = (0..64).map(|r| (r, r * 3)).collect();
    assert_eq!(enc.flag_with_val(&enc.get_flag_pt(20), &vals, BABY_BEAR), 60);
}

#[test]
fn encoder_constraints_hold_on_flag_points_only() {
    let enc = Encoder::new(64, 2, false);
    let mut b = ConstraintChecker::new(BABY_BEAR);
    enc.eval(&mut b, &enc.get_flag_pt(42));
    assert!(b.holds);
    // A point that no flag uses.
    let mut b = ConstraintChecker::new(BABY_BEAR);
    enc.eval(&mut b, &enc.pts[65]);
    assert!(!b.holds);
    // Not a point: a coordinate above the degree.
    let mut v = vec![0u32; 10];
    v[0] = 3;
    let mut b = ConstraintChecker::new(BABY_BEAR);
    enc.eval(&mut b, &v);
    assert!(!b.holds);
    // Not a point: coordinates summing above the degree.
    let mut v = vec![0u32; 10];
    v[0] = 1;
    v[4] = 1;
    v[9] = 1;
    let mut b = ConstraintChecker::new(BABY_BEAR);
    enc.eval(&mut b, &v);
    assert!(!b.holds);
}

#[test]
fn flag_points_as_arrays() {
    let enc = Encoder::new(64, 2, false);
    let a: [u32; 10] = get_flag_pt_array(&enc, 2);
    assert_eq!(a.to_vec(), enc.get_flag_pt(2));
    assert_eq!(a, [0, 0, 0, 0, 0, 0, 0, 0, 0, 2]);
}

#[test]
fn composing_limbs() {
    assert_eq!(compose([0x01, 0x02, 0x03, 0x04]), 0x0403_0201);
    assert_eq!(limbs_into_u32([0x01u32, 0x02, 0x03, 0x04]), 0x0403_0201);
    assert_eq!(limbs_into_u32([0x1234u32, 0xabcd]), 0xabcd_1234);
    assert_eq!(compose_le(&[0x01, 0x02, 0x03, 0x04], BABY_BEAR), 0x0403_0201 % BABY_BEAR);
    assert_eq!(compose_be(&[0x01, 0x02, 0x03, 0x04], BABY_BEAR), 0x0102_0304);
}

#[test]
fn encoder_holds_all_points_of_its_degree() {
    // C(3 + 3, 3) = 20 points of three coordinates with sum at most three.
    let enc = Encoder::new(10, 3, true);
    assert_eq!(enc.var_cnt, 3);
    assert_eq!(enc.pts.len(), 20);
    assert_eq!(enc.get_flag_pt(0), vec![0, 0, 1]);
    assert_eq!(enc.pts[19], vec![3, 0, 0]);
    for i in 1..enc.pts.len() {
        assert!(enc.pts[i - 1] < enc.pts[i]);
        assert!(enc.pts[i].iter().sum::<u32>() <= 3);
    }
}
