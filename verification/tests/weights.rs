//! Unit-tagged number arithmetic.

use cart_pricing::unique_type::number::{scale_weight, WeightGram};

#[test]
fn cal_test() {
    let w1 = WeightGram::new(12);
    let w2 = WeightGram::new(42);
    assert_eq!(w1.add(w2).value(), WeightGram::new(54).value());

    let w12sum = w1.add(w2);
    assert_eq!(w12sum.value(), WeightGram::new(54).value());

    let w3 = WeightGram::new(4);
    assert_eq!(w3.scale(3).value(), WeightGram::new(12).value());
    assert_eq!(scale_weight(3, w3).value(), WeightGram::new(12).value());
}

#[test]
fn cal_basic_diff_types_test() {
    let n1 = 34 as u32;
    let n2 = 56 as i32;
    assert_eq!(n1 + n2 as u32, 90);
}

#[test]
fn weight_sub_and_mul() {
    let w = WeightGram::new(10);
    assert_eq!(w.sub(WeightGram::new(4)).value(), 6);
    assert_eq!(w.mul(WeightGram::new(3)).value(), 30);
}
