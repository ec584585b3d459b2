//! Balance-change records and the downstream sink that consumes them.

use vstd::prelude::*;

verus! {

/// One balance change: the owning address and the signed amount moved.
#[derive(Clone, Debug, PartialEq, Eq)]
pub struct Transaction {
    pub address: String,
    pub amount: i64,
}

impl View for Transaction {
    type V = (Seq<char>, int);

    open spec fn view(&self) -> (Seq<char>, int) {
        (self.address@, self.amount as int)
    }
}

pub open spec fn tx_views(ts: Seq<Transaction>) -> Seq<(Seq<char>, int)> {
    ts.map_values(|t: Transaction| t@)
}

/// The downstream collaborator that consumes balance changes, one batch per
/// successful page. `batches()` is the log of batches accepted so far,
/// oldest first. Implementations live outside the library (the reference
/// one logs each record); `handle_transactions` is trusted to extend the
/// log by exactly the batch it was handed, in order.
pub trait TransactionSink {
    /// The default log is empty: an implementation whose log the verified
    /// contracts should reflect overrides this, as the recording sink
    /// does.
    open spec fn batches(&self) -> Seq<Seq<(Seq<char>, int)>> {
        Seq::empty()
    }

    fn handle_transactions(&mut self, transactions: &Vec<Transaction>)
        ensures
            final(self).batches() == old(self).batches().push(tx_views(transactions@)),
    ;
}

} // verus!
