use bookkeeping::fiat;
use bookkeeping::monetary::{self, Money};
use bookkeeping::money;

#[test]
fn fiat_of_and_amount() {
    let thb = fiat::THB();
    assert_eq!(thb.of(5, 25).amount(), (5, 25));
    assert_eq!(thb.of_major(-3).amount(), (-3, 0));
    assert_eq!(thb.of_minor(-250).amount(), (-2, -50));
    assert_eq!(thb.of_minor(7).neg().amount(), (0, -7));
    let cents = fiat::Currency::new("USD", 100);
    assert_eq!(cents, fiat::Currency::new("USD", 100));
}

#[test]
fn monetary_arithmetic() {
    let thb = monetary::THB();
    let usd = monetary::Currency::new("USD", 100);
    let a = thb.of_major(5).add(usd.of_minor(30));
    assert_eq!(a.get(&thb), Some(500));
    assert_eq!(a.get(&usd), Some(30));
    let b = usd.of(1, 5).add(thb.of_minor(1));
    let mut c = a.clone().add(b.clone());
    assert_eq!(c.get(&thb), Some(501));
    assert_eq!(c.get(&usd), Some(135));
    c.sub_assign(b);
    assert_eq!(c, a);
    let d = a.clone().neg();
    assert_eq!(d.get(&thb), Some(-500));
    let zero = a.clone().add(d);
    assert_ne!(zero, Money::none());
    assert_eq!(zero.get(&usd), Some(0));
    assert_eq!(Money::none().get(&usd), None);
}

#[test]
fn monetary_sum_and_eq_ignore_order() {
    let thb = monetary::THB();
    let usd = monetary::Currency::new("USD", 100);
    let x = thb.of_minor(1).add(usd.of_minor(2));
    let y = usd.of_minor(2).add(thb.of_minor(1));
    assert_eq!(x, y);
    let total = Money::sum(vec![thb.of_major(1), usd.of_minor(3), thb.of_minor(-100)]);
    assert_eq!(total.get(&thb), Some(0));
    assert_eq!(total.get(&usd), Some(3));
    assert_eq!(Money::sum(Vec::new()), Money::none());
    let entry = Money::none().add_entry((usd.clone(), 4)).add_entry((usd.clone(), 6));
    assert_eq!(entry, usd.of_minor(10));
}

#[test]
fn money_decimal() {
    let thb = money::THB();
    let m = thb.of(-1234);
    let n = money::Money::new(1234, &thb);
    let d = money::DecimalAmount::new(-1234, 2);
    assert_eq!(d, money::DecimalAmount { negative: true, magnitude: 1234, scale: 2 });
    let mut e = money::DecimalAmount::new(i64::MIN, 0);
    assert_eq!(e.magnitude, 9223372036854775808u64);
    e.set_sign_negative(false);
    assert!(!e.negative);
    let _ = (m.negate(), n.negate());
}

