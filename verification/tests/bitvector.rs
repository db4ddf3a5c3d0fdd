use roole::domain::bitvector::{ConcreteBitvector, RBound};

fn bv(value: u64, width: u32) -> ConcreteBitvector {
    ConcreteBitvector::new(value, RBound::new(width))
}

#[test]
fn arithmetic_wraps_around_the_width() {
    assert_eq!(bv(200, 8).add(bv(100, 8)).to_u64(), 44);
    assert_eq!(bv(5, 8).sub(bv(7, 8)).to_u64(), 254);
    assert_eq!(bv(16, 8).mul(bv(17, 8)).to_u64(), 16);
    assert_eq!(bv(1, 8).arith_neg().to_u64(), 255);
    assert_eq!(bv(0, 8).arith_neg().to_u64(), 0);
    assert_eq!(bv(u64::MAX, 64).add(bv(1, 64)).to_u64(), 0);
}

#[test]
fn bitwise_operations() {
    assert_eq!(bv(0b1100, 4).bit_and(bv(0b1010, 4)).to_u64(), 0b1000);
    assert_eq!(bv(0b1100, 4).bit_or(bv(0b1010, 4)).to_u64(), 0b1110);
    assert_eq!(bv(0b1100, 4).bit_xor(bv(0b1010, 4)).to_u64(), 0b0110);
    assert_eq!(bv(0b1100, 4).bit_not().to_u64(), 0b0011);
}

#[test]
fn comparisons_give_single_bits() {
    let one = ConcreteBitvector::from_bool(true);
    let zero = ConcreteBitvector::from_bool(false);
    assert_eq!(bv(3, 8).eq(bv(3, 8)), one);
    assert_eq!(bv(3, 8).ne(bv(3, 8)), zero);
    assert_eq!(bv(3, 8).ult(bv(200, 8)), one);
    assert_eq!(bv(3, 8).ule(bv(3, 8)), one);
    // 200 is negative in eight bits
    assert_eq!(bv(3, 8).slt(bv(200, 8)), zero);
    assert_eq!(bv(200, 8).sle(bv(3, 8)), one);
}

#[test]
fn division_by_zero_follows_smtlib() {
    assert_eq!(bv(77, 8).udiv(bv(0, 8)).to_u64(), 255);
    assert_eq!(bv(77, 8).urem(bv(0, 8)).to_u64(), 77);
    assert_eq!(bv(77, 8).udiv(bv(10, 8)).to_u64(), 7);
    assert_eq!(bv(77, 8).urem(bv(10, 8)).to_u64(), 7);
}

#[test]
fn signed_division_by_quadrants() {
    // -7 / 2 == -3, -7 % 2 == -1 (the remainder takes the dividend's sign)
    let minus_seven = bv(256 - 7, 8);
    assert_eq!(minus_seven.sdiv(bv(2, 8)).to_u64(), 256 - 3);
    assert_eq!(minus_seven.srem(bv(2, 8)).to_u64(), 256 - 1);
    // 7 / -2 == -3, 7 % -2 == 1
    assert_eq!(bv(7, 8).sdiv(bv(256 - 2, 8)).to_u64(), 256 - 3);
    assert_eq!(bv(7, 8).srem(bv(256 - 2, 8)).to_u64(), 1);
    assert_eq!(minus_seven.to_i128(), -7);
    assert!(minus_seven.is_negative());
}

#[test]
fn shifts_and_extensions() {
    assert_eq!(bv(0b0011, 4).logic_shl(bv(2, 4)).to_u64(), 0b1100);
    assert_eq!(bv(0b1100, 4).logic_shr(bv(2, 4)).to_u64(), 0b0011);
    assert_eq!(bv(0b1000, 4).arith_shr(bv(2, 4)).to_u64(), 0b1110);
    assert_eq!(bv(0b1000, 4).logic_shr(bv(9, 4)).to_u64(), 0);
    assert_eq!(bv(0b1000, 4).sext(RBound::new(8)).to_u64(), 0b1111_1000);
    assert_eq!(bv(0b1000, 4).uext(RBound::new(8)).to_u64(), 0b0000_1000);
    assert_eq!(bv(0b1011_0101, 8).uext(RBound::new(4)).to_u64(), 0b0101);
}

#[test]
fn masks_and_constants() {
    assert!(bv(255, 8).is_full_mask());
    assert!(!bv(254, 8).is_full_mask());
    assert_eq!(ConcreteBitvector::one(RBound::new(8)).to_u64(), 1);
    assert_eq!(ConcreteBitvector::one(RBound::new(0)).to_u64(), 0);
    assert_eq!(ConcreteBitvector::from_masked_u64(0x1ff, RBound::new(8)).to_u64(), 0xff);
}
