use bookkeeping::account;
use bookkeeping::records::{Account, Move, Unit};
use bookkeeping::{Book, Sum};

#[test]
fn metadata() {
    let account = account::Account { metadata: 5 };
    assert_eq!(*account.metadata(), 5);
}

#[test]
fn account_metadata() {
    let account = Account::new(5);
    assert_eq!(*account.metadata(), 5);
}

#[test]
fn unit_metadata() {
    let unit = Unit::new(5);
    assert_eq!(*unit.metadata(), 5);
}

#[test]
fn move_new() {
    let mut book: Book<u64, (), (), ()> = Book::default();
    let debit_account = book.insert_account(());
    let credit_account = book.insert_account(());
    let sum = Sum::new();
    let move_ = Move::new(debit_account, credit_account, sum.clone(), ());
    assert_eq!(move_.debit_account, debit_account);
    assert_eq!(move_.credit_account, credit_account);
    assert_eq!(move_.sum, sum);
}

#[test]
fn move_metadata() {
    let mut book: Book<u64, (), (), ()> = Book::default();
    let debit_account = book.insert_account(());
    let credit_account = book.insert_account(());
    let sum = Sum::new();
    let move_ = Move::new(debit_account, credit_account, sum.clone(), 5);
    assert_eq!(*move_.metadata(), 5);
}

#[test]
fn records_set_and_get_metadata() {
    let mut account = Account::new(1);
    account.set_metadata(2);
    assert_eq!(*account.get_metadata(), 2);
    let mut unit = Unit::new("USD");
    unit.set_metadata("THB");
    assert_eq!(*unit.get_metadata(), "THB");
    let mut book: Book<u64, (), (), ()> = Book::default();
    let debit_account = book.insert_account(());
    let credit_account = book.insert_account(());
    let mut move_ = Move::new(debit_account, credit_account, Sum::new(), 5);
    move_.set_metadata(6);
    assert_eq!(*move_.get_metadata(), 6);
    assert_eq!(move_.debit_account, debit_account);
    assert_eq!(move_.credit_account, credit_account);
}
