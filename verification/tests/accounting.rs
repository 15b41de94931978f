use bookkeeping::accounting::{Account, Instant, Transaction};
use bookkeeping::monetary::{Money, THB};
use chrono::{DateTime, Duration, Utc};

fn instant(datetime: DateTime<Utc>) -> Instant {
    Instant { secs: datetime.timestamp(), nanos: datetime.timestamp_subsec_nanos() }
}

#[test]
fn transfer() {
    let acc1 = Account::from_id(1);
    let acc2 = Account::from_id(2);
    let thb = THB();
    let transactions = vec![acc1.transfer_to(instant(Utc::now()), &acc2, thb.of_major(50))];
    assert_eq!(acc1.balance(instant(Utc::now()), &transactions), thb.of_major(-50));
    assert_eq!(acc2.balance(instant(Utc::now()), &transactions), thb.of_major(50));
}

#[test]
fn accounting_transfer_own_account() {
    let acc = Account::from_id(7);
    let thb = THB();
    let now = instant(Utc::now());
    let transactions = vec![acc.transfer_to(now, &acc, thb.of_major(5))];
    let money = acc.balance(now, &transactions);
    assert_ne!(money, Money::none());
    assert_eq!(money.get(&thb), Some(0));
}

#[test]
fn accounting_balance_at_dates() {
    let thb = THB();
    let wallet = Account::from_id(1);
    let bank = Account::from_id(2);
    let first = DateTime::parse_from_rfc3339("2020-11-10T10:10:57+07:00").unwrap().with_timezone(&Utc);
    let second = first + Duration::seconds(5);
    let transactions = vec![
        bank.transfer_to(instant(first), &wallet, thb.of_major(900)),
        bank.transfer_to(instant(second), &wallet, thb.of_major(100)),
    ];
    assert_eq!(wallet.balance(instant(first - Duration::seconds(1)), &transactions), Money::none());
    assert_eq!(wallet.balance(instant(first), &transactions), thb.of_major(900));
    assert_eq!(wallet.balance(instant(second), &transactions), thb.of_major(1000));
    assert_eq!(bank.balance(instant(second), &transactions), thb.of_major(-1000));
}

#[test]
fn accounting_balance_with_and_errors() {
    let thb = THB();
    let bank = Account::from_id(1);
    let wallet = Account::from_id(2);
    let when = Instant { secs: 100, nanos: 0 };
    let items: Vec<i64> = vec![500, -100];
    let refs: Vec<&i64> = items.iter().collect();
    let to_transfer = |amount: &i64| -> Result<Transaction, String> {
        if *amount >= 0 {
            Ok(bank.transfer_to(when, &wallet, thb.of_major(*amount)))
        } else {
            Ok(wallet.transfer_to(when, &bank, thb.of_major(-*amount)))
        }
    };
    assert_eq!(bank.balance_with(when, refs.clone(), to_transfer), Ok(thb.of_major(-400)));
    let failing = |amount: &i64| -> Result<Transaction, String> {
        if *amount >= 0 {
            Ok(bank.transfer_to(when, &wallet, thb.of_major(*amount)))
        } else {
            Err(format!("negative {}", amount))
        }
    };
    assert_eq!(bank.balance_with(when, refs, failing), Err(String::from("negative -100")));
}

#[test]
fn accounting_running_balance() {
    let thb = THB();
    let bank = Account::from_id(1);
    let wallet = Account::from_id(2);
    let store = Account::from_id(3);
    let moves: Vec<(u8, u8, i64)> = vec![(1, 0, 20), (0, 1, 4), (1, 2, 1), (0, 1, 3), (0, 2, 2), (0, 1, 2), (0, 1, 1)];
    let refs: Vec<&(u8, u8, i64)> = moves.iter().collect();
    let accounts = [&bank, &wallet, &store];
    let to_transfer = |m: &(u8, u8, i64)| -> Result<Transaction, ()> {
        let when = Instant { secs: m.2 * 0 + 1, nanos: 0 };
        Ok(accounts[m.0 as usize].transfer_to(when, accounts[m.1 as usize], thb.of_major(m.2)))
    };
    let running = bank.running_balance_with(refs, to_transfer).unwrap();
    assert_eq!(running.len(), 6);
    assert_eq!(running[0].0, &(1, 0, 20));
    assert_eq!(running[0].1.get(&thb), Some(800));
}

#[test]
fn accounting_running_balance_by_time() {
    let thb = THB();
    let bank = Account::from_id(1);
    let wallet = Account::from_id(2);
    let moves: Vec<(i64, i64)> = vec![(1, 10), (2, -4), (3, -3), (4, -2), (5, -1)];
    let refs: Vec<&(i64, i64)> = moves.iter().collect();
    let to_transfer = |m: &(i64, i64)| -> Result<Transaction, ()> {
        let when = Instant { secs: m.0, nanos: 0 };
        if m.1 >= 0 {
            Ok(wallet.transfer_to(when, &bank, thb.of_major(m.1)))
        } else {
            Ok(bank.transfer_to(when, &wallet, thb.of_major(-m.1)))
        }
    };
    let running = bank.running_balance_with(refs, to_transfer).unwrap();
    let amounts: Vec<Money> = running.into_iter().map(|(_, m)| m).collect();
    let expected: Vec<Money> = [10, 6, 3, 1, 0].iter().map(|n| thb.of_major(*n)).collect();
    assert_eq!(amounts, expected);
}

#[test]
fn instant_order() {
    let a = Instant { secs: 5, nanos: 10 };
    let b = Instant { secs: 5, nanos: 11 };
    let c = Instant { secs: 6, nanos: 0 };
    assert!(a.is_at_or_before(&b));
    assert!(a.is_at_or_before(&a));
    assert!(!b.is_at_or_before(&a));
    assert!(b.is_at_or_before(&c));
    assert!(!c.is_at_or_before(&b));
}
