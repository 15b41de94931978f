use bookkeeping::{Book, Move, MoveIndex, Side, Sum, TransactionIndex};

type TestBook = Book<u64, &'static str, &'static str, &'static str>;

#[test]
fn move__new() {
    let mut book = TestBook::default();
    let debit_account_key = book.insert_account("");
    let credit_account_key = book.insert_account("");
    let sum: Sum<u64> = Sum::new();
    let move_ = Move::new(debit_account_key, credit_account_key, sum.clone(), ());
    assert_eq!(move_.side_key(Side::Debit), debit_account_key);
    assert_eq!(move_.side_key(Side::Credit), credit_account_key);
    assert_eq!(*move_.sum(), sum);
}

#[test]
fn side() {
    let mut book = TestBook::default();
    let debit_account_key = book.insert_account("");
    let credit_account_key = book.insert_account("");
    let move_ = Move::new(debit_account_key, credit_account_key, Sum::<u64>::new(), "");
    assert_eq!(move_.side_key(Side::Debit), debit_account_key);
    assert_eq!(move_.side_key(Side::Credit), credit_account_key);
}

#[test]
fn move__sum() {
    let mut book = TestBook::default();
    let debit_account_key = book.insert_account("");
    let credit_account_key = book.insert_account("");
    let thb = 764;
    let ils = 376;
    let mut sum = Sum::new();
    sum.set_amount_for_unit(100u64, thb);
    sum.set_amount_for_unit(200u64, ils);
    let move_ = Move::new(debit_account_key, credit_account_key, sum.clone(), "");
    assert_eq!(*move_.sum(), sum);
}

#[test]
fn move__extra() {
    let mut book = TestBook::default();
    let debit_account_key = book.insert_account("");
    let credit_account_key = book.insert_account("");
    let move_ = Move::new(debit_account_key, credit_account_key, Sum::<u64>::new(), 5);
    assert_eq!(*move_.extra(), 5);
}

#[test]
fn moves() {
    let mut book = TestBook::default();
    book.insert_transaction(TransactionIndex(0), "");
    let debit_account_key = book.insert_account("");
    let credit_account_key = book.insert_account("");
    book.insert_move(TransactionIndex(0), MoveIndex(0), debit_account_key, credit_account_key, Sum::new(), "a");
    book.insert_move(TransactionIndex(0), MoveIndex(1), debit_account_key, credit_account_key, Sum::new(), "b");
    book.insert_move(TransactionIndex(0), MoveIndex(0), debit_account_key, credit_account_key, Sum::new(), "c");
    book.insert_move(TransactionIndex(0), MoveIndex(2), debit_account_key, credit_account_key, Sum::new(), "d");
    let transactions = book.transactions();
    let moves = transactions[0].1.moves();
    assert_eq!(
        moves.iter().map(|(_move_index, move_)| move_.extra()).collect::<Vec<_>>(),
        vec![&"c", &"a", &"d", &"b"],
    );
    assert_eq!(moves.iter().map(|(index, _)| index.0).collect::<Vec<_>>(), vec![0, 1, 2, 3]);
}

#[test]
fn transaction_extra() {
    let mut book: Book<u8, (), &str, ()> = Book::default();
    book.insert_transaction(TransactionIndex(0), "deposit");
    let transactions = book.transactions();
    assert_eq!(transactions[0].1.extra(), &"deposit");
    assert_eq!(transactions[0].0 .0, 0);
}
