//! Transactions: ordered groups of moves.
use vstd::prelude::*;
use crate::book::AccountKey;
use crate::move_::{Move, Side};
use crate::sum::Sum;

verus! {

/// Represents a transaction.
pub struct Transaction<Number, Extra, MoveExtra> {
    pub(crate) extra: Extra,
    pub(crate) moves: Vec<Move<Number, MoveExtra>>,
}

/// Used to index moves in a transaction.
pub struct MoveIndex(pub usize);

impl<Number, Extra, MoveExtra> Transaction<Number, Extra, MoveExtra> {
    /// The moves of the transaction, in their order.
    pub closed spec fn moves_view(&self) -> Seq<Move<Number, MoveExtra>> {
        self.moves@
    }

    /// The extra data of the transaction.
    pub closed spec fn spec_extra(&self) -> Extra {
        self.extra
    }

    pub(crate) fn new(extra: Extra) -> (t: Self)
        ensures
            t.spec_extra() == extra,
            t.moves_view() == Seq::<Move<Number, MoveExtra>>::empty(),
    {
        Transaction { extra, moves: Vec::new() }
    }

    pub(crate) fn moves_len(&self) -> (n: usize)
        ensures
            n == self.moves_view().len(),
    {
        self.moves.len()
    }

    pub(crate) fn move_at(&self, index: usize) -> (m: &Move<Number, MoveExtra>)
        requires
            index < self.moves_view().len(),
        ensures
            *m == self.moves_view()[index as int],
    {
        &self.moves[index]
    }

    pub(crate) fn set_extra(&mut self, extra: Extra)
        ensures
            final(self).spec_extra() == extra,
            final(self).moves_view() == old(self).moves_view(),
    {
        self.extra = extra;
    }

    pub(crate) fn insert_move(&mut self, index: usize, m: Move<Number, MoveExtra>)
        requires
            index <= old(self).moves_view().len(),
        ensures
            final(self).spec_extra() == old(self).spec_extra(),
            final(self).moves_view() == old(self).moves_view().insert(index as int, m),
    {
        self.moves.insert(index, m);
    }

    pub(crate) fn remove_move(&mut self, index: usize)
        requires
            index < old(self).moves_view().len(),
        ensures
            final(self).spec_extra() == old(self).spec_extra(),
            final(self).moves_view() == old(self).moves_view().remove(index as int),
    {
        self.moves.remove(index);
    }

    pub(crate) fn set_move_extra(&mut self, index: usize, extra: MoveExtra)
        requires
            index < old(self).moves_view().len(),
        ensures
            final(self).spec_extra() == old(self).spec_extra(),
            final(self).moves_view().len() == old(self).moves_view().len(),
            forall|i: int|
                0 <= i < old(self).moves_view().len() && i != index ==> #[trigger] final(self).moves_view()[i]
                    == old(self).moves_view()[i],
            final(self).moves_view()[index as int].spec_extra() == extra,
            final(self).moves_view()[index as int].debit_key() == old(self).moves_view()[index as int].debit_key(),
            final(self).moves_view()[index as int].credit_key() == old(self).moves_view()[index as int].credit_key(),
            final(self).moves_view()[index as int].sum_view() == old(self).moves_view()[index as int].sum_view(),
    {
        self.moves[index].set_extra(extra);
    }

    pub(crate) fn set_move_sum(&mut self, index: usize, sum: Sum<Number>)
        requires
            index < old(self).moves_view().len(),
        ensures
            final(self).spec_extra() == old(self).spec_extra(),
            final(self).moves_view().len() == old(self).moves_view().len(),
            forall|i: int|
                0 <= i < old(self).moves_view().len() && i != index ==> #[trigger] final(self).moves_view()[i]
                    == old(self).moves_view()[i],
            final(self).moves_view()[index as int].spec_extra() == old(self).moves_view()[index as int].spec_extra(),
            final(self).moves_view()[index as int].debit_key() == old(self).moves_view()[index as int].debit_key(),
            final(self).moves_view()[index as int].credit_key() == old(self).moves_view()[index as int].credit_key(),
            final(self).moves_view()[index as int].sum_view() == sum@,
    {
        self.moves[index].set_sum(sum);
    }

    pub(crate) fn set_move_side_key(&mut self, index: usize, side: Side, key: AccountKey)
        requires
            index < old(self).moves_view().len(),
        ensures
            final(self).spec_extra() == old(self).spec_extra(),
            final(self).moves_view().len() == old(self).moves_view().len(),
            forall|i: int|
                0 <= i < old(self).moves_view().len() && i != index ==> #[trigger] final(self).moves_view()[i]
                    == old(self).moves_view()[i],
            final(self).moves_view()[index as int].spec_extra() == old(self).moves_view()[index as int].spec_extra(),
            final(self).moves_view()[index as int].sum_view() == old(self).moves_view()[index as int].sum_view(),
            final(self).moves_view()[index as int].debit_key() == match side {
                Side::Debit => key,
                Side::Credit => old(self).moves_view()[index as int].debit_key(),
            },
            final(self).moves_view()[index as int].credit_key() == match side {
                Side::Debit => old(self).moves_view()[index as int].credit_key(),
                Side::Credit => key,
            },
    {
        self.moves[index].set_side_key(side, key);
    }

    /// Gets the existing moves in their order, each with its index.
    pub fn moves(&self) -> (r: Vec<(MoveIndex, &Move<Number, MoveExtra>)>)
        ensures
            r@.len() == self.moves_view().len(),
            forall|i: int|
                0 <= i < r@.len() ==> (#[trigger] r@[i]).0.0 == i && *r@[i].1
                    == self.moves_view()[i],
    {
        let mut r: Vec<(MoveIndex, &Move<Number, MoveExtra>)> = Vec::new();
        let mut i: usize = 0;
        while i < self.moves.len()
            invariant
                i <= self.moves@.len(),
                r@.len() == i,
                forall|k: int| 0 <= k < i ==> (#[trigger] r@[k]).0.0 == k && *r@[k].1 == self.moves@[k],
            decreases self.moves@.len() - i,
        {
            r.push((MoveIndex(i), &self.moves[i]));
            i = i + 1;
        }
        r
    }

    /// Gets the extra data of the transaction.
    pub fn extra(&self) -> (e: &Extra)
        ensures
            *e == self.spec_extra(),
    {
        &self.extra
    }
}

} // verus!
