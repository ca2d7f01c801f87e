use booleanomial::{Booleanomial, BoolyError, BoolyOrder, GoodBooly};

fn variables() -> (Booleanomial<8>, Booleanomial<8>, Booleanomial<8>) {
    (
        Booleanomial::<8>::new(0),
        Booleanomial::<8>::new(1),
        Booleanomial::<8>::new(2),
    )
}

#[test]
fn orders_give_the_number_of_variables() {
    assert_eq!(<BoolyOrder<1> as GoodBooly<1>>::value(), 0);
    assert_eq!(<BoolyOrder<2> as GoodBooly<2>>::value(), 1);
    assert_eq!(<BoolyOrder<4> as GoodBooly<4>>::value(), 2);
    assert_eq!(<BoolyOrder<8> as GoodBooly<8>>::value(), 3);
    assert_eq!(<BoolyOrder<16> as GoodBooly<16>>::value(), 4);
    assert_eq!(<BoolyOrder<32> as GoodBooly<32>>::value(), 5);
    assert_eq!(<BoolyOrder<64> as GoodBooly<64>>::value(), 6);
    assert_eq!(<BoolyOrder<128> as GoodBooly<128>>::value(), 7);
    assert_eq!(<BoolyOrder<256> as GoodBooly<256>>::value(), 8);
}

#[test]
fn try_new_accepts_the_variables_that_exist() {
    let b = Booleanomial::<4>::try_new(1);
    assert!(b.is_ok());
    assert_eq!(b.unwrap().to_string(), "b");
    let h = Booleanomial::<256>::try_new(7);
    assert!(h.is_ok());
    assert_eq!(h.unwrap().to_string(), "h");
}

#[test]
fn try_new_rejects_a_variable_out_of_range() {
    assert!(matches!(
        Booleanomial::<4>::try_new(2),
        Err(BoolyError::OutOfRange)
    ));
    assert!(matches!(
        Booleanomial::<1>::try_new(0),
        Err(BoolyError::OutOfRange)
    ));
    assert!(matches!(
        Booleanomial::<256>::try_new(8),
        Err(BoolyError::OutOfRange)
    ));
    assert!(matches!(
        Booleanomial::<8>::try_new(usize::MAX),
        Err(BoolyError::OutOfRange)
    ));
    assert_eq!(BoolyError::OutOfRange, BoolyError::OutOfRange);
}

#[test]
fn double_negation_gives_the_polynomial_back() {
    let (a, b, c) = variables();
    let x = a.and(&b).or(&c.and(&a.xor(&b)));
    assert_eq!(x.not().not().to_string(), x.to_string());
    assert_eq!(x.not().not().to_string(), "ab + ac + bc - 2abc");
    assert_eq!(a.not().not().to_string(), "a");
    let zero = Booleanomial::<8>::new_false();
    assert_eq!(zero.not().not().to_string(), "0");
}

#[test]
fn de_morgan_duality() {
    let (a, b, c) = variables();
    assert_eq!(a.or(&b).not().to_string(), "1 - a - b + ab");
    assert_eq!(a.not().and(&b.not()).to_string(), "1 - a - b + ab");
    assert_eq!(a.and(&b).not().to_string(), "1 - ab");
    assert_eq!(a.not().or(&b.not()).to_string(), "1 - ab");
    let x = a.xor(&c);
    let y = b.or(&c);
    assert_eq!(
        x.or(&y).not().to_string(),
        x.not().and(&y.not()).to_string()
    );
    assert_eq!(
        x.and(&y).not().to_string(),
        x.not().or(&y.not()).to_string()
    );
}

#[test]
fn connectives_commute() {
    let (a, b, c) = variables();
    let x = a.xor(&c).not();
    let y = b.or(&c);
    assert_eq!(x.and(&y).to_string(), y.and(&x).to_string());
    assert_eq!(x.or(&y).to_string(), y.or(&x).to_string());
    assert_eq!(x.xor(&y).to_string(), y.xor(&x).to_string());
    assert_eq!(b.and(&a).to_string(), "ab");
    assert_eq!(b.or(&a).to_string(), "a + b - ab");
    assert_eq!(b.xor(&a).to_string(), "a + b - 2ab");
}

#[test]
fn multiplication_is_conjunction() {
    let (a, b, c) = variables();
    assert_eq!(a.mul(&b).to_string(), "ab");
    assert_eq!(a.mul(&a).to_string(), "a");
    assert_eq!(a.or(&b).mul(&c.not()).to_string(), "a + b - ab - ac - bc + abc");
    let zero = Booleanomial::<8>::new_false();
    assert_eq!(a.mul(&zero).to_string(), "0");
    assert_eq!(a.mul(&zero.not()).to_string(), "a");
}

#[test]
fn connectives_have_their_truth_tables() {
    let a = Booleanomial::<4>::new(0);
    let b = Booleanomial::<4>::new(1);
    let zero = Booleanomial::<4>::new_false();
    for x in 0..4usize {
        let va = x & 1 == 1;
        let vb = x & 2 == 2;
        assert_eq!(a.evaluate(x), va);
        assert_eq!(b.evaluate(x), vb);
        assert_eq!(zero.evaluate(x), false);
        assert_eq!(a.not().evaluate(x), !va);
        assert_eq!(a.and(&b).evaluate(x), va && vb);
        assert_eq!(a.or(&b).evaluate(x), va || vb);
        assert_eq!(a.xor(&b).evaluate(x), va != vb);
    }
}

#[test]
fn and_is_true_only_where_both_are() {
    let a = Booleanomial::<4>::new(0);
    let b = Booleanomial::<4>::new(1);
    let both = a.and(&b);
    assert_eq!(both.evaluate(0), false);
    assert_eq!(both.evaluate(1), false);
    assert_eq!(both.evaluate(2), false);
    assert_eq!(both.evaluate(3), true);
}

#[test]
fn full_adder_matches_binary_addition() {
    let (a, b, c) = variables();
    let sum = a.xor(&b).xor(&c);
    let carry = a.and(&b).or(&c.and(&a.xor(&b)));
    for x in 0..8usize {
        let ones = (x & 1) + ((x >> 1) & 1) + ((x >> 2) & 1);
        assert_eq!(sum.evaluate(x), ones % 2 == 1);
        assert_eq!(carry.evaluate(x), ones >= 2);
    }
}

#[test]
fn parity_of_eight_variables() {
    let mut parity = Booleanomial::<256>::new_false();
    for z in 0..8 {
        parity = parity.xor(&Booleanomial::<256>::new(z));
    }
    for x in 0..256usize {
        assert_eq!(parity.evaluate(x), x.count_ones() % 2 == 1);
    }
    let text = parity.to_string();
    assert!(text.starts_with("a + b - 2ab + c - 2ac - 2bc + 4abc + d"));
    assert!(text.ends_with(" + 64bcdefgh - 128abcdefgh"));
    assert_eq!(parity.not().not().to_string(), text);
}

#[test]
fn operands_are_left_unchanged() {
    let (a, b, _) = variables();
    let _ = a.and(&b);
    let _ = a.or(&b);
    let _ = a.xor(&b);
    let _ = a.not();
    assert_eq!(a.to_string(), "a");
    assert_eq!(b.to_string(), "b");
}

#[test]
fn single_term_polynomial_has_no_variable() {
    let zero = Booleanomial::<1>::new_false();
    let one = zero.not();
    assert_eq!(one.evaluate(0), true);
    assert_eq!(zero.evaluate(0), false);
    assert_eq!(one.and(&zero).to_string(), "0");
    assert_eq!(one.or(&zero).to_string(), "1");
    assert_eq!(one.xor(&one).to_string(), "0");
}
