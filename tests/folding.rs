use egg_herbie::fold::{fold_value, ConstantFold, Folded, Op};
use egg_herbie::rational::Rational;

fn digits(mut m: u64) -> Vec<u32> {
    let mut out = vec![];
    while m > 0 {
        out.push((m & 0xffff_ffff) as u32);
        m >>= 32;
    }
    out
}

fn rat(n: i64, d: i64) -> Rational {
    let negative = (n < 0) != (d < 0);
    Rational::from_parts(negative, digits(n.unsigned_abs()), digits(d.unsigned_abs())).unwrap()
}

fn as_pair(r: &Rational) -> (i128, u128) {
    let mut n: i128 = 0;
    for d in r.numer.iter().rev() {
        n = n * (1i128 << 32) + *d as i128;
    }
    let mut d: u128 = 0;
    for x in r.denom.iter().rev() {
        d = d * (1u128 << 32) + *x as u128;
    }
    (if r.negative { -n } else { n }, d)
}

fn ctx() -> Rational {
    rat(64, 1)
}

fn fold2(op: Op, a: Rational) -> Option<(i128, u128)> {
    fold_value(&op, &vec![ctx(), a]).map(|r| as_pair(&r))
}

fn fold3(op: Op, a: Rational, b: Rational) -> Option<(i128, u128)> {
    fold_value(&op, &vec![ctx(), a, b]).map(|r| as_pair(&r))
}

#[test]
fn from_parts_reduces_to_lowest_terms() {
    assert_eq!(as_pair(&rat(4, 2)), (2, 1));
    assert_eq!(as_pair(&rat(-6, 4)), (-3, 2));
    assert_eq!(as_pair(&rat(0, 5)), (0, 1));
    assert!(!rat(0, 5).negative);
}

#[test]
fn from_parts_rejects_zero_denominator() {
    assert!(Rational::from_parts(false, vec![1], vec![]).is_none());
    assert!(Rational::from_parts(false, vec![1], vec![0, 0]).is_none());
}

#[test]
fn large_values_stay_exact() {
    let big = Rational::from_parts(false, vec![0, 0, 1], vec![1]).unwrap();
    let sq = fold_value(&Op::Mul, &vec![ctx(), big.clone(), big]).unwrap();
    assert_eq!(sq.numer, vec![0, 0, 0, 0, 1]);
    let sq = fold_value(&Op::Mul, &vec![ctx(), rat(1 << 40, 1), rat(1 << 40, 1)]).unwrap();
    assert_eq!(sq.numer, vec![0, 0, 65536]);
    assert_eq!(sq.denom, vec![1]);
}

#[test]
fn add_one_one_folds_to_two() {
    assert_eq!(fold3(Op::Add, rat(1, 1), rat(1, 1)), Some((2, 1)));
}

#[test]
fn arithmetic_folds_exactly() {
    assert_eq!(fold3(Op::Sub, rat(1, 2), rat(1, 3)), Some((1, 6)));
    assert_eq!(fold3(Op::Mul, rat(2, 1), rat(3, 1)), Some((6, 1)));
    assert_eq!(fold3(Op::Mul, rat(-2, 3), rat(3, 4)), Some((-1, 2)));
    assert_eq!(fold2(Op::Neg, rat(5, 7)), Some((-5, 7)));
    assert_eq!(fold2(Op::Neg, rat(0, 1)), Some((0, 1)));
    assert_eq!(fold2(Op::Fabs, rat(-5, 7)), Some((5, 7)));
}

#[test]
fn divide_folds_to_quotient() {
    assert_eq!(fold3(Op::Div, rat(1, 2), rat(3, 4)), Some((2, 3)));
    assert_eq!(fold3(Op::Div, rat(-1, 1), rat(-3, 1)), Some((1, 3)));
}

#[test]
fn divide_by_zero_never_folds() {
    assert_eq!(fold3(Op::Div, rat(1, 1), rat(0, 1)), None);
    assert_eq!(fold3(Op::Div, rat(0, 1), rat(0, 1)), None);
}

#[test]
fn power_with_integer_exponent() {
    assert_eq!(fold3(Op::Pow, rat(2, 3), rat(3, 1)), Some((8, 27)));
    assert_eq!(fold3(Op::Pow, rat(2, 1), rat(-2, 1)), Some((1, 4)));
    assert_eq!(fold3(Op::Pow, rat(-2, 3), rat(-3, 1)), Some((-27, 8)));
    assert_eq!(fold3(Op::Pow, rat(7, 5), rat(0, 1)), Some((1, 1)));
    assert_eq!(fold3(Op::Pow, rat(0, 1), rat(5, 1)), Some((0, 1)));
}

#[test]
fn power_special_and_undefined_cases() {
    assert_eq!(fold3(Op::Pow, rat(2, 1), rat(1, 2)), None);
    assert_eq!(fold3(Op::Pow, rat(0, 1), rat(0, 1)), None);
    assert_eq!(fold3(Op::Pow, rat(0, 1), rat(-1, 2)), Some((0, 1)));
    assert_eq!(fold3(Op::Pow, rat(0, 1), rat(-2, 1)), Some((0, 1)));
}

#[test]
fn sqrt_of_perfect_squares() {
    assert_eq!(fold2(Op::Sqrt, rat(4, 9)), Some((2, 3)));
    assert_eq!(fold2(Op::Sqrt, rat(1, 1)), Some((1, 1)));
    let r = fold2(Op::Sqrt, rat(49, 100)).unwrap();
    assert_eq!((r.0 * r.0, r.1 * r.1), (49, 100));
}

#[test]
fn sqrt_that_does_not_fold() {
    assert_eq!(fold2(Op::Sqrt, rat(2, 1)), None);
    assert_eq!(fold2(Op::Sqrt, rat(4, 3)), None);
    assert_eq!(fold2(Op::Sqrt, rat(0, 1)), None);
    assert_eq!(fold2(Op::Sqrt, rat(-4, 1)), None);
}

#[test]
fn floor_ceil_round() {
    assert_eq!(fold2(Op::Floor, rat(-7, 2)), Some((-4, 1)));
    assert_eq!(fold2(Op::Ceil, rat(-7, 2)), Some((-3, 1)));
    assert_eq!(fold2(Op::Round, rat(-7, 2)), Some((-4, 1)));
    assert_eq!(fold2(Op::Round, rat(5, 2)), Some((3, 1)));
    assert_eq!(fold2(Op::Round, rat(7, 3)), Some((2, 1)));
    assert_eq!(fold2(Op::Floor, rat(7, 3)), Some((2, 1)));
    assert_eq!(fold2(Op::Ceil, rat(7, 3)), Some((3, 1)));
}

#[test]
fn constants_symbols_and_other_operators() {
    assert_eq!(fold_value(&Op::Constant(rat(3, 4)), &vec![]).map(|r| as_pair(&r)), Some((3, 4)));
    assert!(fold_value(&Op::Symbol("x".to_string()), &vec![]).is_none());
    assert!(fold_value(&Op::Other("sin".to_string()), &vec![ctx(), rat(0, 1)]).is_none());
    assert!(fold_value(&Op::Add, &vec![rat(1, 1), rat(1, 1)]).is_none());
}

#[test]
fn make_needs_folding_on_and_known_children() {
    let on = ConstantFold::default();
    let off = ConstantFold { constant_fold: false, ..ConstantFold::default() };
    let args = vec![Some(ctx()), Some(rat(2, 1)), Some(rat(3, 1))];
    let made = on.make(&Op::Mul, &args).unwrap();
    assert_eq!(as_pair(&made.value), (6, 1));
    assert_eq!(made.args.iter().map(as_pair).collect::<Vec<_>>(), vec![(64, 1), (2, 1), (3, 1)]);
    assert!(off.make(&Op::Mul, &args).is_none());
    assert!(on.make(&Op::Mul, &vec![Some(ctx()), None, Some(rat(3, 1))]).is_none());
}

fn folded(n: i64) -> Folded {
    Folded { value: rat(n, 1), args: vec![] }
}

#[test]
fn merge_adopts_known_value() {
    let mut a = ConstantFold::default();
    let mut to = None;
    assert!(a.merge(&mut to, Some(folded(2))));
    assert_eq!(as_pair(&to.as_ref().unwrap().value), (2, 1));
    assert!(!a.merge(&mut to, None));
    let mut none = None;
    assert!(!a.merge(&mut none, None));
    assert!(none.is_none());
    assert!(!a.unsound);
}

#[test]
fn merge_of_equal_values_is_sound() {
    let mut a = ConstantFold::default();
    let mut to = Some(folded(2));
    assert!(!a.merge(&mut to, Some(Folded { value: rat(4, 2), args: vec![] })));
    assert!(!a.unsound);
}

#[test]
fn conflicting_constants_set_unsound_for_good() {
    let mut a = ConstantFold::default();
    let mut to = Some(folded(2));
    assert!(!a.merge(&mut to, Some(folded(3))));
    assert!(a.unsound);
    assert_eq!(as_pair(&to.as_ref().unwrap().value), (2, 1));
    let mut other = Some(folded(5));
    a.merge(&mut other, Some(folded(5)));
    assert!(a.unsound);
    a.merge(&mut other, None);
    assert!(a.unsound);
}

#[test]
fn times_two_three_folds_to_six() {
    let a = ConstantFold::default();
    let product = a.make(&Op::Mul, &vec![Some(ctx()), Some(rat(2, 1)), Some(rat(3, 1))]).unwrap();
    let six = a.make(&Op::Constant(rat(6, 1)), &vec![]).unwrap();
    assert!(product.value.equals(&six.value));
}

#[test]
fn modify_adds_constant_and_prunes() {
    let a = ConstantFold::default();
    let plan = a.modify(&Some(folded(2))).unwrap();
    assert_eq!(as_pair(&plan.value), (2, 1));
    assert!(plan.retain_leaves);
    let keep = ConstantFold { prune: false, ..ConstantFold::default() };
    assert!(!keep.modify(&Some(folded(2))).unwrap().retain_leaves);
    assert!(a.modify(&None).is_none());
}

#[test]
fn rational_predicates() {
    assert!(rat(0, 3).is_zero());
    assert!(rat(-1, 3).is_negative());
    assert!(rat(6, 3).is_integer());
    assert!(!rat(1, 3).is_integer());
    assert!(rat(1, 2).equals(&rat(2, 4)));
    assert!(!rat(1, 2).equals(&rat(-1, 2)));
}
