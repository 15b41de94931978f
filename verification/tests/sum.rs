use bookkeeping::Sum;

const THB: u64 = 764;
const USD: u64 = 840;

fn sum_of(entries: &[(u64, u64)]) -> Sum<u64> {
    let mut sum = Sum::new();
    for (unit, amount) in entries {
        sum.set_amount_for_unit(*amount, *unit);
    }
    sum
}

#[test]
fn sum_new() {
    let actual = Sum::<usize>::new();
    assert!(actual.amounts().is_empty());
    assert_eq!(actual, Sum::default());
}

#[test]
fn from_entries() {
    let actual = sum_of(&[(THB, 100), (USD, 200)]);
    assert_eq!(actual.amounts(), vec![(&THB, &100), (&USD, &200)]);
}

#[test]
fn set_amount_for_unit() {
    let unit = USD;
    let mut actual = Sum::new();
    actual.set_amount_for_unit(3, unit);
    assert_eq!(actual.amounts(), vec![(&unit, &3)]);
}

#[test]
fn sum_amounts() {
    let sum = sum_of(&[(THB, 3), (USD, 10)]);
    let actual = sum.amounts();
    let expected = vec![(&THB, &3), (&USD, &10)];
    assert_eq!(actual, expected);
}

#[test]
fn sum_fmt_debug() {
    let usd = USD;
    let amount_usd = 76;
    let thb = THB;
    let amount_thb = 45;
    let sum = sum_of(&[(usd, amount_usd), (thb, amount_thb)]);
    let actual = format!("{:?}", sum);
    let expected = format!(
        "Sum({{{:?}: {:?}, {:?}: {:?}}})",
        thb, amount_thb, usd, amount_usd
    );
    assert_eq!(actual, expected);
}

#[test]
fn set_amount_for_unit_replaces_amount() {
    let mut sum = sum_of(&[(USD, 3)]);
    sum.set_amount_for_unit(7, USD);
    assert_eq!(sum.amounts(), vec![(&USD, &7)]);
}
