//! Minimal bookkeeping: books of accounts, ordered transactions of moves,
//! sums of units and account balances.
use vstd::prelude::*;

pub mod account;
pub mod accounting;
pub mod balance;
pub mod book;
pub mod double_entry;
pub mod fiat;
pub mod listing;
pub mod monetary;
pub mod money;
pub mod move_;
pub mod records;
pub mod slots;
pub mod sum;
pub mod transaction;
pub mod unit;

pub use crate::balance::Balance;
pub use crate::book::{AccountKey, Book, TransactionIndex};
pub use crate::move_::{Move, Side};
pub use crate::transaction::{MoveIndex, Transaction};
pub use crate::sum::Sum;
pub use crate::unit::Unit;

verus! {
} // verus!
