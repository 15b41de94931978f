use bookkeeping::{AccountKey, Balance, Book, MoveIndex, Side, Sum, TransactionIndex};

type TestBook = Book<u64, &'static str, &'static str, &'static str>;

const USD: u64 = 840;

fn sum_of(entries: &[(u64, u64)]) -> Sum<u64> {
    let mut sum = Sum::new();
    for (unit, amount) in entries {
        sum.set_amount_for_unit(*amount, *unit);
    }
    sum
}

fn move_extras(book: &TestBook, transaction: usize) -> Vec<&'static str> {
    book.transactions()[transaction]
        .1
        .moves()
        .iter()
        .map(|(_, move_)| *move_.extra())
        .collect()
}

#[test]
fn default() {
    let book = TestBook::default();
    assert!(book.accounts().is_empty());
    assert!(book.transactions().is_empty());
}

#[test]
fn insert_account() {
    let mut book = TestBook::default();
    book.insert_account("");
    assert_eq!(book.accounts().len(), 1);
}

#[test]
fn insert_transaction() {
    let mut book = TestBook::default();
    book.insert_transaction(TransactionIndex(0), "a");
    book.insert_transaction(TransactionIndex(1), "b");
    book.insert_transaction(TransactionIndex(0), "c");
    book.insert_transaction(TransactionIndex(2), "d");
    assert_eq!(
        book.transactions()
            .iter()
            .map(|(_, transaction)| transaction.extra())
            .collect::<Vec<_>>(),
        [&"c", &"a", &"d", &"b"],
    );
}

#[test]
fn insert_move() {
    let mut book = TestBook::default();
    book.insert_transaction(TransactionIndex(0), "");
    let debit_key = book.insert_account("");
    let credit_key = book.insert_account("");
    book.insert_move(TransactionIndex(0), MoveIndex(0), debit_key, credit_key, Sum::new(), "a");
    book.insert_move(TransactionIndex(0), MoveIndex(0), debit_key, credit_key, Sum::new(), "b");
    book.insert_move(TransactionIndex(0), MoveIndex(1), debit_key, credit_key, Sum::new(), "c");
    book.insert_move(TransactionIndex(0), MoveIndex(2), debit_key, credit_key, Sum::new(), "d");
    assert_eq!(move_extras(&book, 0), vec!["b", "c", "d", "a"]);
}

#[test]
fn accounts() {
    let mut book = TestBook::default();
    assert!(book.accounts().is_empty());
    let account_a_key = book.insert_account("a");
    let account_b_key = book.insert_account("b");
    let expected = vec![(account_a_key, &"a"), (account_b_key, &"b")];
    let actual = book.accounts();
    assert_eq!(actual, expected);
}

#[test]
fn get_account() {
    let mut book = TestBook::default();
    book.insert_account("");
    let account_key = book.insert_account("!");
    book.insert_account("");
    let account = book.get_account(account_key);
    assert_eq!(*account, "!");
}

#[test]
fn account_balance_at_transaction() {
    let mut book = TestBook::default();
    let account_a_key = book.insert_account("");
    let account_b_key = book.insert_account("");
    let usd = USD;
    book.insert_transaction(TransactionIndex(0), "");
    book.insert_move(
        TransactionIndex(0),
        MoveIndex(0),
        account_a_key,
        account_b_key,
        sum_of(&[(usd, 3)]),
        "",
    );
    assert_eq!(
        book.account_balance_at_transaction(account_a_key, TransactionIndex(0)),
        Balance::default().sub_sum(&sum_of(&[(usd, 3)])),
    );
    assert_eq!(
        book.account_balance_at_transaction(account_b_key, TransactionIndex(0)),
        Balance::default().add_sum(&sum_of(&[(usd, 3)])),
    );
    book.insert_transaction(TransactionIndex(1), "");
    book.insert_move(
        TransactionIndex(1),
        MoveIndex(0),
        account_a_key,
        account_b_key,
        sum_of(&[(usd, 4)]),
        "",
    );
    assert_eq!(
        book.account_balance_at_transaction(account_a_key, TransactionIndex(0)),
        Balance::default().sub_sum(&sum_of(&[(usd, 3)])),
    );
    assert_eq!(
        book.account_balance_at_transaction(account_b_key, TransactionIndex(0)),
        Balance::default().add_sum(&sum_of(&[(usd, 3)])),
    );
    assert_eq!(
        book.account_balance_at_transaction(account_a_key, TransactionIndex(1)),
        Balance::default().sub_sum(&sum_of(&[(usd, 7)])),
    );
    assert_eq!(
        book.account_balance_at_transaction(account_b_key, TransactionIndex(1)),
        Balance::default().add_sum(&sum_of(&[(usd, 7)])),
    );
    book.insert_transaction(TransactionIndex(0), "");
    book.insert_move(
        TransactionIndex(0),
        MoveIndex(0),
        account_a_key,
        account_b_key,
        sum_of(&[(usd, 1)]),
        "",
    );
    assert_eq!(
        book.account_balance_at_transaction(account_a_key, TransactionIndex(0)),
        Balance::default().sub_sum(&sum_of(&[(usd, 1)])),
    );
    assert_eq!(
        book.account_balance_at_transaction(account_b_key, TransactionIndex(0)),
        Balance::default().add_sum(&sum_of(&[(usd, 1)])),
    );
    assert_eq!(
        book.account_balance_at_transaction(account_a_key, TransactionIndex(1)),
        Balance::default().sub_sum(&sum_of(&[(usd, 4)])),
    );
    assert_eq!(
        book.account_balance_at_transaction(account_b_key, TransactionIndex(1)),
        Balance::default().add_sum(&sum_of(&[(usd, 4)])),
    );
    assert_eq!(
        book.account_balance_at_transaction(account_a_key, TransactionIndex(2)),
        Balance::default().sub_sum(&sum_of(&[(usd, 8)])),
    );
    assert_eq!(
        book.account_balance_at_transaction(account_b_key, TransactionIndex(2)),
        Balance::default().add_sum(&sum_of(&[(usd, 8)])),
    );
}

#[test]
fn set_account() {
    let mut book = TestBook::default();
    let account_key = book.insert_account("");
    book.set_account(account_key, "!");
    assert_eq!(*book.get_account(account_key), "!");
}

#[test]
fn set_move_metadata() {
    let mut book = TestBook::default();
    let debit_key = book.insert_account("");
    let credit_key = book.insert_account("");
    book.insert_transaction(TransactionIndex(0), "");
    book.insert_move(TransactionIndex(0), MoveIndex(0), debit_key, credit_key, Sum::new(), "");
    book.set_move_metadata(TransactionIndex(0), MoveIndex(0), "!");
    assert_eq!(move_extras(&book, 0), vec!["!"]);
}

#[test]
fn remove_transaction() {
    let mut book = TestBook::default();
    book.insert_transaction(TransactionIndex(0), "a");
    book.insert_transaction(TransactionIndex(1), "b");
    book.remove_transaction(TransactionIndex(1));
    assert_eq!(book.transactions()[0].1.extra(), &"a");
    book.remove_transaction(TransactionIndex(0));
    assert!(book.transactions().is_empty());
}

#[test]
fn remove_move() {
    let mut book = TestBook::default();
    let debit_account_key = book.insert_account("");
    let credit_account_key = book.insert_account("");
    book.insert_transaction(TransactionIndex(0), "");
    book.insert_move(
        TransactionIndex(0),
        MoveIndex(0),
        debit_account_key,
        credit_account_key,
        Sum::new(),
        "a",
    );
    book.insert_move(
        TransactionIndex(0),
        MoveIndex(1),
        debit_account_key,
        credit_account_key,
        Sum::new(),
        "b",
    );
    book.remove_move(TransactionIndex(0), MoveIndex(1));
    assert_eq!(move_extras(&book, 0), vec!["a"]);
    book.remove_move(TransactionIndex(0), MoveIndex(0));
    assert!(book.transactions()[0].1.moves().is_empty());
}

#[test]
fn set_move_side() {
    let mut book = TestBook::default();
    let account_a_key = book.insert_account("");
    let account_b_key = book.insert_account("");
    let account_c_key = book.insert_account("");
    book.insert_transaction(TransactionIndex(0), "");
    book.insert_move(TransactionIndex(0), MoveIndex(0), account_a_key, account_b_key, Sum::new(), "");
    book.set_move_side(TransactionIndex(0), MoveIndex(0), Side::Debit, account_c_key);
    {
        let transactions = book.transactions();
        let moves = transactions[0].1.moves();
        assert_eq!(moves[0].1.side_key(Side::Debit), account_c_key);
        assert_eq!(moves[0].1.side_key(Side::Credit), account_b_key);
    }
    book.set_move_side(TransactionIndex(0), MoveIndex(0), Side::Credit, account_a_key);
    let transactions = book.transactions();
    let moves = transactions[0].1.moves();
    assert_eq!(moves[0].1.side_key(Side::Debit), account_c_key);
    assert_eq!(moves[0].1.side_key(Side::Credit), account_a_key);
}

#[test]
fn set_move_sum() {
    let mut book = TestBook::default();
    let debit_account_key = book.insert_account("");
    let credit_account_key = book.insert_account("");
    book.insert_transaction(TransactionIndex(0), "");
    book.insert_move(
        TransactionIndex(0),
        MoveIndex(0),
        debit_account_key,
        credit_account_key,
        Sum::new(),
        "",
    );
    let usd = USD;
    book.set_move_sum(TransactionIndex(0), MoveIndex(0), sum_of(&[(usd, 100)]));
    let transactions = book.transactions();
    let moves = transactions[0].1.moves();
    assert_eq!(moves[0].1.sum().amounts(), vec![(&usd, &100)]);
}

#[test]
fn set_transaction_metadata() {
    let mut book = TestBook::default();
    book.insert_transaction(TransactionIndex(0), "a");
    book.insert_transaction(TransactionIndex(1), "b");
    book.set_transaction_metadata(TransactionIndex(1), "!");
    let extras: Vec<&&str> = book.transactions().iter().map(|(_, t)| t.extra()).collect();
    assert_eq!(extras, vec![&"a", &"!"]);
}

#[test]
fn account_keys_are_distinct() {
    let mut book = TestBook::default();
    let keys: Vec<AccountKey> = (0..5).map(|_| book.insert_account("")).collect();
    for i in 0..keys.len() {
        for j in 0..keys.len() {
            assert_eq!(keys[i] == keys[j], i == j);
        }
    }
}

#[test]
fn book_stays_balanced() {
    let mut book = TestBook::default();
    let bank = book.insert_account("Bank");
    let wallet = book.insert_account("Wallet");
    let income = book.insert_account("Income");
    book.insert_transaction(TransactionIndex(0), "Initial balances");
    book.insert_move(TransactionIndex(0), MoveIndex(0), income, bank, sum_of(&[(840, 8000), (978, 1000)]), "");
    book.insert_move(TransactionIndex(0), MoveIndex(1), income, wallet, sum_of(&[(840, 200)]), "");
    book.insert_transaction(TransactionIndex(1), "Rent");
    book.insert_move(TransactionIndex(1), MoveIndex(0), bank, wallet, sum_of(&[(840, 1200)]), "");
    for t in 0..2 {
        for unit in [840u64, 978] {
            let total: i128 = [bank, wallet, income]
                .iter()
                .map(|key| *book.account_balance_at_transaction(*key, TransactionIndex(t)).unit_amount(unit).unwrap_or(&0))
                .sum();
            assert_eq!(total, 0);
        }
    }
    let bank_balance = book.account_balance_at_transaction(bank, TransactionIndex(1));
    assert_eq!(bank_balance.amounts(), vec![(&840, &6800), (&978, &1000)]);
}

#[test]
fn later_transaction_does_not_change_earlier_balance() {
    let mut book = TestBook::default();
    let a = book.insert_account("a");
    let b = book.insert_account("b");
    book.insert_transaction(TransactionIndex(0), "");
    book.insert_move(TransactionIndex(0), MoveIndex(0), a, b, sum_of(&[(USD, 2000)]), "");
    let before = book.account_balance_at_transaction(b, TransactionIndex(0));
    book.insert_transaction(TransactionIndex(1), "");
    book.insert_move(TransactionIndex(1), MoveIndex(0), b, a, sum_of(&[(USD, 100)]), "");
    assert_eq!(book.account_balance_at_transaction(b, TransactionIndex(0)), before);
    book.remove_transaction(TransactionIndex(1));
    assert_eq!(book.account_balance_at_transaction(b, TransactionIndex(0)), before);
}

#[test]
fn running_balance() {
    let mut book = TestBook::default();
    let income_key = book.insert_account("");
    let bank_key = book.insert_account("");
    let wallet_key = book.insert_account("");
    book.insert_transaction(TransactionIndex(0), "");
    book.insert_move(TransactionIndex(0), MoveIndex(0), income_key, bank_key, sum_of(&[(USD, 2000)]), "");
    book.insert_transaction(TransactionIndex(1), "");
    book.insert_move(TransactionIndex(1), MoveIndex(0), bank_key, wallet_key, sum_of(&[(USD, 100)]), "");
    book.insert_transaction(TransactionIndex(1), "");
    book.insert_move(TransactionIndex(1), MoveIndex(0), income_key, bank_key, sum_of(&[(USD, 1000)]), "");
    let bank_running_balance: Vec<i128> = [0, 1, 2]
        .iter()
        .map(|transaction_index| {
            *book
                .account_balance_at_transaction(bank_key, TransactionIndex(*transaction_index))
                .unit_amount(USD)
                .unwrap()
        })
        .collect();
    assert_eq!(bank_running_balance, vec![2000, 3000, 2900]);
}

#[test]
fn insert_then_remove_transaction_restores_transactions() {
    let mut book = TestBook::default();
    book.insert_transaction(TransactionIndex(0), "a");
    book.insert_transaction(TransactionIndex(1), "b");
    book.insert_transaction(TransactionIndex(1), "x");
    book.remove_transaction(TransactionIndex(1));
    let extras: Vec<&&str> = book.transactions().iter().map(|(_, t)| t.extra()).collect();
    assert_eq!(extras, vec![&"a", &"b"]);
}

#[test]
fn set_account_leaves_other_accounts() {
    let mut book = TestBook::default();
    let a = book.insert_account("a");
    let b = book.insert_account("b");
    book.set_account(a, "c");
    assert_eq!(*book.get_account(a), "c");
    assert_eq!(*book.get_account(b), "b");
}
