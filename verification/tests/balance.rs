use bookkeeping::{Balance, Sum};

const ILS: u64 = 376;
const THB: u64 = 764;
const USD: u64 = 840;

fn sum_of(entries: &[(u64, u64)]) -> Sum<u64> {
    let mut sum = Sum::new();
    for (unit, amount) in entries {
        sum.set_amount_for_unit(*amount, *unit);
    }
    sum
}

#[test]
fn balance_fmt_debug() {
    let usd = USD;
    let amount_usd = 76;
    let thb = THB;
    let amount_thb = 45;
    let sum = sum_of(&[(usd, amount_usd), (thb, amount_thb)]);
    let balance = Balance::default().add_sum(&sum);
    let actual = format!("{:?}", balance);
    let expected = format!(
        "Balance({{{:?}: {:?}, {:?}: {:?}}})",
        thb, amount_thb, usd, amount_usd
    );
    assert_eq!(actual, expected);
}

#[test]
fn sub_assign_sum() {
    let usd = USD;
    let mut actual = Balance::default();
    actual.sub_assign_sum(&sum_of(&[(usd, 9)]));
    assert_eq!(actual.amounts(), vec![(&usd, &-9)]);
}

#[test]
fn sub_sum() {
    let usd = USD;
    let immutable = Balance::default();
    let actual = immutable.sub_sum(&sum_of(&[(usd, 9)]));
    assert_eq!(actual.amounts(), vec![(&usd, &-9)]);
}

#[test]
fn add_assign_sum() {
    let usd = USD;
    let mut actual = Balance::default();
    actual.add_assign_sum(&sum_of(&[(usd, 9)]));
    assert_eq!(actual.amounts(), vec![(&usd, &9)]);
}

#[test]
fn add_sum() {
    let usd = USD;
    let immutable = Balance::default();
    let actual = immutable.add_sum(&sum_of(&[(usd, 9)]));
    assert_eq!(actual.amounts(), vec![(&usd, &9)]);
}

#[test]
fn balance_amounts() {
    let balance = Balance::default().add_sum(&sum_of(&[(USD, 100), (THB, 200), (ILS, 300)]));
    let actual = balance.amounts();
    let expected = vec![(&ILS, &300), (&THB, &200), (&USD, &100)];
    assert_eq!(actual, expected);
}

#[test]
fn unit_amount() {
    let balance = Balance::default().add_sum(&sum_of(&[(USD, 200), (THB, 100)]));
    assert_eq!(balance.unit_amount(USD).unwrap(), &200);
    assert_eq!(balance.unit_amount(THB).unwrap(), &100);
    assert_eq!(balance.unit_amount(ILS), None);
}

#[test]
fn add_assign_and_sub_assign_unit() {
    let mut balance = Balance::default();
    balance.add_assign_unit(&(USD, 5));
    balance.sub_assign_unit(&(USD, 7));
    balance.sub_assign_unit(&(THB, 1));
    assert_eq!(balance.amounts(), vec![(&THB, &-1), (&USD, &-2)]);
    let balance = balance.add_unit(&(THB, 1)).sub_unit(&(ILS, 4));
    assert_eq!(balance.amounts(), vec![(&ILS, &-4), (&THB, &0), (&USD, &-2)]);
}

#[test]
fn add_then_sub_sum_keeps_amounts() {
    let start = Balance::default().add_sum(&sum_of(&[(USD, 10)]));
    let sum = sum_of(&[(USD, 4), (THB, 6)]);
    let back = start.clone().add_sum(&sum).sub_sum(&sum);
    assert_eq!(back.unit_amount(USD), Some(&10));
    assert_eq!(back.unit_amount(THB), Some(&0));
}

#[test]
fn amounts_of_existing_unit_accumulate() {
    let mut balance = Balance::default();
    balance.add_assign_sum(&sum_of(&[(USD, 3)]));
    balance.add_assign_sum(&sum_of(&[(USD, 4)]));
    balance.sub_assign_sum(&sum_of(&[(USD, 10)]));
    assert_eq!(balance.unit_amount(USD), Some(&-3));
}

#[test]
fn apply_sum_operation() {
    let mut actual = Balance::default();
    let usd = USD;
    let thb = THB;
    let sum = sum_of(&[(usd, 2), (thb, 3)]);
    actual.apply_sum_operation(&sum, |balance, amount| {
        let rhs: i128 = amount.into();
        balance + rhs
    });
    let sum = sum_of(&[(usd, 2), (thb, 3)]);
    actual.apply_sum_operation(&sum, |balance, amount| {
        let rhs: i128 = amount.into();
        balance * rhs
    });
    assert_eq!(actual.amounts(), vec![(&thb, &9), (&usd, &4)]);
}
