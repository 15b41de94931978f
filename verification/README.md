# bookkeeping

A small bookkeeping library, verified with Verus.

- `book`: a book of accounts (keyed by `AccountKey`) and an ordered collection of
  transactions, each an ordered collection of moves. Every move goes from a debit account
  to a different credit account of the book; `account_balance_at_transaction` adds up the
  moves of the transactions up to and including a given one.
- `double_entry`: the proof that at every transaction the balances of all accounts of a
  book add up to zero in every unit.
- `sum`, `balance`: amounts by unit (units are integers, such as ISO 4217 numeric codes).
- `move_`, `transaction`, `records`, `account`, `unit`: the records of a book.
- `slots`: the key store of accounts, a `slotmap::DenseSlotMap` described by trusted
  contracts.
- `fiat`, `monetary`, `money`, `accounting`: money of one or several currencies, and the
  balances of accounts that transfer money at given instants.

`app/` holds what stays outside verification: the process-wide numbering of accounts, the
clock, and conversions to floating-point and `rust_decimal` numbers.
