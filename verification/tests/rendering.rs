use booleanomial::render::format_polynomial;
use booleanomial::Booleanomial;

#[test]
fn order_test() {
    let a = Booleanomial::<2>::new(0);
    assert_eq!(a.to_string(), "a");

    let a = Booleanomial::<4>::new(0);
    let b = Booleanomial::<4>::new(1);
    assert_eq!(a.to_string(), "a");
    assert_eq!(b.to_string(), "b");

    let a = Booleanomial::<8>::new(0);
    let b = Booleanomial::<8>::new(1);
    let c = Booleanomial::<8>::new(2);
    assert_eq!(a.to_string(), "a");
    assert_eq!(b.to_string(), "b");
    assert_eq!(c.to_string(), "c")
}

#[test]
fn basic_op_test() {
    let a = Booleanomial::<4>::new(0);
    let b = Booleanomial::<4>::new(1);
    assert_eq!(a.not().to_string(), "1 - a");
    assert_eq!(a.and(&b).to_string(), "ab");
    assert_eq!(a.or(&b).to_string(), "a + b - ab");
    assert_eq!(a.xor(&b).to_string(), "a + b - 2ab")
}

#[test]
fn complex_op_test() {
    let a = Booleanomial::<8>::new(0);
    let b = Booleanomial::<8>::new(1);
    let c = Booleanomial::<8>::new(2);
    assert_eq!(
        a.xor(&b).xor(&c).to_string(),
        "a + b - 2ab + c - 2ac - 2bc + 4abc"
    );
    assert_eq!(
        a.and(&b).or(&c.and(&a.xor(&b))).to_string(),
        "ab + ac + bc - 2abc"
    )
}

#[test]
fn every_variable_renders_as_its_letter() {
    let names = ["a", "b", "c", "d", "e", "f", "g", "h"];
    for z in 0..1 {
        assert_eq!(Booleanomial::<2>::new(z).to_string(), names[z]);
    }
    for z in 0..2 {
        assert_eq!(Booleanomial::<4>::new(z).to_string(), names[z]);
    }
    for z in 0..3 {
        assert_eq!(Booleanomial::<8>::new(z).to_string(), names[z]);
    }
    for z in 0..4 {
        assert_eq!(Booleanomial::<16>::new(z).to_string(), names[z]);
    }
    for z in 0..5 {
        assert_eq!(Booleanomial::<32>::new(z).to_string(), names[z]);
    }
    for z in 0..6 {
        assert_eq!(Booleanomial::<64>::new(z).to_string(), names[z]);
    }
    for z in 0..7 {
        assert_eq!(Booleanomial::<128>::new(z).to_string(), names[z]);
    }
    for z in 0..8 {
        assert_eq!(Booleanomial::<256>::new(z).to_string(), names[z]);
    }
}

#[test]
fn zero_renders_as_zero() {
    assert_eq!(Booleanomial::<1>::new_false().to_string(), "0");
    assert_eq!(Booleanomial::<2>::new_false().to_string(), "0");
    assert_eq!(Booleanomial::<4>::new_false().to_string(), "0");
    assert_eq!(Booleanomial::<8>::new_false().to_string(), "0");
    assert_eq!(Booleanomial::<16>::new_false().to_string(), "0");
    assert_eq!(Booleanomial::<32>::new_false().to_string(), "0");
    assert_eq!(Booleanomial::<64>::new_false().to_string(), "0");
    assert_eq!(Booleanomial::<128>::new_false().to_string(), "0");
    assert_eq!(Booleanomial::<256>::new_false().to_string(), "0");
}

#[test]
fn constant_one_renders_with_its_digit() {
    assert_eq!(Booleanomial::<1>::new_false().not().to_string(), "1");
    assert_eq!(Booleanomial::<8>::new_false().not().to_string(), "1");
}

#[test]
fn format_of_no_terms_is_zero() {
    assert_eq!(format_polynomial(&vec![0, 0, 0, 0], 2), "0");
    assert_eq!(format_polynomial(&vec![0], 0), "0");
    assert_eq!(format_polynomial(&Vec::new(), 0), "0");
}

#[test]
fn format_of_a_leading_negative_term_has_a_bare_minus() {
    assert_eq!(format_polynomial(&vec![0, -1, 0, 0], 2), "-a");
    assert_eq!(format_polynomial(&vec![-3, 0, 2, -1], 2), "-3 + 2b - ab");
    assert_eq!(format_polynomial(&vec![-1], 0), "-1");
    assert_eq!(format_polynomial(&vec![0, 0, 0, -7], 2), "-7ab");
}

#[test]
fn format_keeps_a_one_only_in_the_constant_term() {
    assert_eq!(format_polynomial(&vec![1, 1, 1, 1], 2), "1 + a + b + ab");
    assert_eq!(format_polynomial(&vec![-1, -1, -1, -1], 2), "-1 - a - b - ab");
    assert_eq!(format_polynomial(&vec![1], 0), "1");
}

#[test]
fn format_writes_magnitudes_in_decimal() {
    assert_eq!(format_polynomial(&vec![10, 0, 0, -12], 2), "10 - 12ab");
    assert_eq!(format_polynomial(&vec![0, 305, -9000, 100], 2), "305a - 9000b + 100ab");
    assert_eq!(format_polynomial(&vec![2147483647, -2147483647], 1), "2147483647 - 2147483647a");
    assert_eq!(format_polynomial(&vec![i32::MIN, i32::MIN], 1), "-2147483648 - 2147483648a");
}

#[test]
fn format_orders_terms_by_index_and_letters_by_variable() {
    let mut coeffs = vec![0; 256];
    coeffs[255] = 2;
    coeffs[128] = 3;
    coeffs[129] = -4;
    coeffs[6] = 5;
    assert_eq!(format_polynomial(&coeffs, 8), "5bc + 3h - 4ah + 2abcdefgh");
}

#[test]
fn format_shows_only_the_variables_below_the_count() {
    assert_eq!(format_polynomial(&vec![0, 2, 3, 4], 1), "2a + 3 + 4a");
    assert_eq!(format_polynomial(&vec![0, 2, 3, 4], 0), "2 + 3 + 4");
}

#[test]
fn demonstration_expressions() {
    let a = Booleanomial::<8>::new(0);
    let b = Booleanomial::<8>::new(1);
    let c = Booleanomial::<8>::new(2);
    assert_eq!(a.not().to_string(), "1 - a");
    assert_eq!(a.and(&b).to_string(), "ab");
    assert_eq!(a.or(&b).to_string(), "a + b - ab");
    assert_eq!(a.xor(&b).to_string(), "a + b - 2ab");
    assert_eq!(b.or(&c).and(&a).to_string(), "ab + ac - abc");
}
