use bitcalc::{alu_add, as_signed, to_width, AppError, Calc, CalcOutValue, Flags, Operand};

fn flags(negative: bool, zero: bool, carry: bool, overflow: bool) -> Flags {
    Flags { negative, zero, overflow, carry }
}

#[test]
fn add_wraps_to_zero_at_eight_bits() {
    let out = Calc::try_new(255, 1, 8).unwrap().calc();
    assert_eq!(out.adds.0, CalcOutValue { unsigned: 0, signed: 0 });
    assert_eq!(out.adds.1, flags(false, true, true, false));
}

#[test]
fn add_overflows_into_sign_bit() {
    let out = Calc::try_new(127, 1, 8).unwrap().calc();
    assert_eq!(out.adds.0, CalcOutValue { unsigned: 128, signed: -128 });
    assert_eq!(out.adds.1, flags(true, false, false, true));
}

#[test]
fn subtract_without_borrow_at_four_bits() {
    let negated = to_width((!3u64).wrapping_add(1), 4);
    assert_eq!(negated, 13);
    let (value, f) = alu_add(5, negated, 4);
    assert_eq!(value, CalcOutValue { unsigned: 2, signed: 2 });
    assert_eq!(f, flags(false, false, true, false));
}

#[test]
fn subtract_with_borrow_at_four_bits() {
    let negated = to_width((!5u64).wrapping_add(1), 4);
    assert_eq!(negated, 11);
    let (value, f) = alu_add(3, negated, 4);
    assert_eq!(value, CalcOutValue { unsigned: 14, signed: -2 });
    assert!(!f.carry);
    assert!(f.negative);
    assert!(!f.zero);
}

#[test]
fn calc_subtracts_through_negation() {
    let out = Calc::try_new(5, 3, 8).unwrap().calc();
    assert_eq!(out.subs.0, CalcOutValue { unsigned: 2, signed: 2 });
    assert_eq!(out.subs.1, flags(false, false, true, false));
    let out = Calc::try_new(3, 5, 8).unwrap().calc();
    assert_eq!(out.subs.0, CalcOutValue { unsigned: 254, signed: -2 });
    assert_eq!(out.subs.1, flags(true, false, false, false));
}

#[test]
fn subtracting_zero_sets_no_carry() {
    let out = Calc::try_new(9, 0, 16).unwrap().calc();
    assert_eq!(out.subs.0, CalcOutValue { unsigned: 9, signed: 9 });
    assert_eq!(out.subs.1, flags(false, false, false, false));
}

#[test]
fn sums_and_differences_wrap_at_every_width() {
    let samples: [u64; 5] = [0, 1, 0x5a5a_5a5a_5a5a_5a5a, 0x8000_0000_0000_0000, u64::MAX];
    for width in 8u8..=64 {
        let m: u128 = 1u128 << width;
        for &a in samples.iter() {
            for &b in samples.iter() {
                let l = (a as u128 % m) as u64;
                let r = (b.rotate_left(7) as u128 % m) as u64;
                let out = Calc::try_new(l, r, width).unwrap().calc();
                let sum = l as u128 + r as u128;
                assert_eq!(out.adds.0.unsigned as u128, sum % m);
                assert_eq!(out.adds.1.carry, sum >= m);
                let diff = (l as u128 + m - r as u128) % m;
                assert_eq!(out.subs.0.unsigned as u128, diff);
                for (v, f) in [out.adds, out.subs] {
                    assert_eq!(f.zero, v.unsigned == 0);
                    assert_eq!(f.negative, (v.unsigned >> (width - 1)) & 1 == 1);
                }
                let half: i128 = 1i128 << (width - 1);
                let sl = as_signed(l, width) as i128;
                let sr = as_signed(r, width) as i128;
                assert_eq!(out.adds.1.overflow, sl + sr < -half || sl + sr >= half);
            }
        }
    }
}

#[test]
fn full_width_addition() {
    let out = Calc::try_new(u64::MAX, 1, 64).unwrap().calc();
    assert_eq!(out.adds.0, CalcOutValue { unsigned: 0, signed: 0 });
    assert_eq!(out.adds.1, flags(false, true, true, false));
    let out = Calc::try_new(0x7fff_ffff_ffff_ffff, 1, 64).unwrap().calc();
    assert_eq!(out.adds.0, CalcOutValue { unsigned: 0x8000_0000_0000_0000, signed: i64::MIN });
    assert_eq!(out.adds.1, flags(true, false, false, true));
}

#[test]
fn signed_reading_round_trips() {
    for width in 1u8..=64 {
        let m: u128 = 1u128 << width;
        for v in [0u64, 1, 0x80, 0xff, 0x7fff, 0x1234_5678_9abc_def0, u64::MAX] {
            let v = (v as u128 % m) as u64;
            let s = as_signed(v, width);
            assert_eq!(((s as i128).rem_euclid(m as i128)) as u64, v);
        }
    }
    assert_eq!(as_signed(0xff, 8), -1);
    assert_eq!(as_signed(0x80, 8), -128);
    assert_eq!(as_signed(0x7f, 8), 127);
    assert_eq!(as_signed(u64::MAX, 64), -1);
}

#[test]
fn to_width_keeps_low_bits() {
    assert_eq!(to_width(0x1ff, 8), 0xff);
    assert_eq!(to_width(0xdead_beef, 16), 0xbeef);
    assert_eq!(to_width(u64::MAX, 64), u64::MAX);
    assert_eq!(to_width(u64::MAX, 100), u64::MAX);
}

#[test]
fn operand_one_past_the_limit_is_refused() {
    for width in 8u8..64 {
        let max = (1u64 << width) - 1;
        assert!(Calc::try_new(max, 0, width).is_ok());
        assert_eq!(
            Calc::try_new(max + 1, 0, width),
            Err(AppError::OperandTooLarge { operand: Operand::Left, value: max + 1, width })
        );
        assert_eq!(
            Calc::try_new(0, max + 1, width),
            Err(AppError::OperandTooLarge { operand: Operand::Right, value: max + 1, width })
        );
    }
    assert!(Calc::try_new(u64::MAX, u64::MAX, 64).is_ok());
}

#[test]
fn widths_outside_eight_to_sixty_four_are_refused() {
    assert_eq!(Calc::try_new(1, 2, 7), Err(AppError::UnsupportedWidth { width: 7 }));
    assert_eq!(Calc::try_new(1, 2, 65), Err(AppError::UnsupportedWidth { width: 65 }));
    assert_eq!(Calc::try_new(1, 2, 8), Ok(Calc { left: 1, right: 2, width: 8 }));
    assert_eq!(Calc::try_new(1, 2, 64), Ok(Calc { left: 1, right: 2, width: 64 }));
}

#[test]
fn left_operand_is_checked_before_the_width() {
    assert_eq!(
        Calc::try_new(300, 400, 4),
        Err(AppError::OperandTooLarge { operand: Operand::Left, value: 300, width: 4 })
    );
    assert_eq!(
        Calc::try_new(3, 400, 4),
        Err(AppError::OperandTooLarge { operand: Operand::Right, value: 400, width: 4 })
    );
    assert_eq!(Calc::try_new(3, 4, 4), Err(AppError::UnsupportedWidth { width: 4 }));
}
