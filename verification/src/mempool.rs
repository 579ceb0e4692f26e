//! The pool of transactions that wait for a block.

use crate::block::tx_models;
use crate::hashing::same_hash;
use crate::transactions::{Tx, TxModel};
use vstd::prelude::*;

verus! {

/// Whether some transaction in `pending` has the id `txid`.
pub open spec fn holds_txid(pending: Seq<TxModel>, txid: [u8; 32]) -> bool {
    exists|i: int| 0 <= i < pending.len() && (#[trigger] pending[i]).txid == txid
}

/// Whether no two transactions in `pending` share an id.
pub open spec fn distinct_txids(pending: Seq<TxModel>) -> bool {
    forall|i: int, j: int|
        0 <= i < j < pending.len() ==> (#[trigger] pending[i]).txid != (#[trigger] pending[j]).txid
}

/// Pending transactions, at most one for each id.
pub struct Mempool {
    pending: Vec<Tx>,
}

impl View for Mempool {
    type V = Seq<TxModel>;

    closed spec fn view(&self) -> Seq<TxModel> {
        tx_models(self.pending@)
    }
}

impl Mempool {
    /// The invariant of the type: no id occurs twice. Every constructor
    /// establishes it and every method keeps it.
    pub open spec fn wf(&self) -> bool {
        distinct_txids(self@)
    }

    /// An empty pool.
    pub fn new() -> (pool: Mempool)
        ensures
            pool.wf(),
            pool@.len() == 0,
    {
        Mempool { pending: Vec::new() }
    }

    /// The number of pending transactions.
    pub fn len(&self) -> (n: usize)
        ensures
            n == self@.len(),
    {
        self.pending.len()
    }

    /// Whether a transaction with the id `txid` is pending.
    pub fn contains(&self, txid: &[u8; 32]) -> (found: bool)
        ensures
            found == holds_txid(self@, *txid),
    {
        let mut i: usize = 0;
        while i < self.pending.len()
            invariant
                i <= self.pending.len(),
                forall|k: int| 0 <= k < i ==> (#[trigger] self@[k]).txid != *txid,
            decreases self.pending.len() - i,
        {
            if same_hash(&self.pending[i].txid, txid) {
                assert(self@[i as int].txid == *txid);
                return true;
            }
            i += 1;
        }
        false
    }

    /// Adds `tx` unless a transaction with its id is already pending, and
    /// says whether it was added.
    pub fn insert(&mut self, tx: Tx) -> (added: bool)
        requires
            old(self).wf(),
        ensures
            final(self).wf(),
            added == !holds_txid(old(self)@, tx.txid),
            added ==> final(self)@ == old(self)@.push(tx@),
            !added ==> final(self)@ == old(self)@,
    {
        if self.contains(&tx.txid) {
            false
        } else {
            let ghost before = self.pending@;
            self.pending.push(tx);
            assert(tx_models(self.pending@) =~= tx_models(before).push(tx@));
            let ghost was = old(self)@;
            let ghost now = self@;
            assert forall|i: int, j: int| 0 <= i < j < now.len() implies (#[trigger] now[i]).txid
                != (#[trigger] now[j]).txid by {
                assert(now[i] == was[i]);
                if j < was.len() {
                    assert(now[j] == was[j]);
                }
            }
            true
        }
    }
}

} // verus!
