//! Replay collaborators: a transport that serves scripted response bodies
//! and a sink that records what it is handed. They let the tailing loop be
//! exercised against canned endpoint states, with no network; both
//! discharge their trait contracts in full.

use vstd::prelude::*;
use crate::tailer::{HttpCall, HttpExecutor, opt_view};
use crate::transaction::{Transaction, TransactionSink, tx_views};

verus! {

/// A transport that answers the `i`-th POST with the `i`-th scripted
/// response, and with a failed exchange once the script runs out. It keeps
/// the full log of exchanges, which `history()` reflects verbatim.
pub struct ScriptedHttp {
    responses: Vec<Option<String>>,
    log: Vec<(String, Option<String>)>,
}

impl ScriptedHttp {
    pub fn new(responses: Vec<Option<String>>) -> (r: ScriptedHttp)
        ensures
            r.history() == Seq::<HttpCall>::empty(),
    {
        let r = ScriptedHttp { responses, log: Vec::new() };
        proof {
            assert(r.history() =~= Seq::<HttpCall>::empty());
        }
        r
    }

    /// The request bodies posted so far, oldest first.
    pub fn calls(&self) -> (r: &Vec<(String, Option<String>)>)
        ensures
            r@.len() == self.history().len(),
            forall|i: int|
                0 <= i < r@.len() ==> self.history()[i] == ((#[trigger] r@[i]).0@, opt_view(
                    r@[i].1,
                )),
    {
        &self.log
    }
}

impl HttpExecutor for ScriptedHttp {
    closed spec fn history(&self) -> Seq<HttpCall> {
        Seq::new(self.log@.len(), |i: int| (self.log@[i].0@, opt_view(self.log@[i].1)))
    }

    fn post(&mut self, body: &str) -> (r: Option<String>) {
        let idx = self.log.len();
        let r: Option<String> = if idx < self.responses.len() {
            match &self.responses[idx] {
                Some(s) => Some(s.clone()),
                None => None,
            }
        } else {
            None
        };
        let logged: Option<String> = match &r {
            Some(s) => Some(s.clone()),
            None => None,
        };
        self.log.push((body.to_owned(), logged));
        proof {
            assert(final(self).history() =~= old(self).history().push((body@, opt_view(r))));
        }
        r
    }
}

/// A sink that records every batch it is handed, in order; `batches()`
/// reflects the record verbatim.
pub struct RecordingSink {
    received: Vec<Vec<Transaction>>,
}

impl RecordingSink {
    pub fn new() -> (r: RecordingSink)
        ensures
            r.batches() == Seq::<Seq<(Seq<char>, int)>>::empty(),
    {
        let r = RecordingSink { received: Vec::new() };
        proof {
            assert(r.batches() =~= Seq::<Seq<(Seq<char>, int)>>::empty());
        }
        r
    }

    /// The batches accepted so far, oldest first.
    pub fn received(&self) -> (r: &Vec<Vec<Transaction>>)
        ensures
            r@.len() == self.batches().len(),
            forall|i: int| 0 <= i < r@.len() ==> self.batches()[i] == tx_views(#[trigger] r@[i]@),
    {
        &self.received
    }
}

impl TransactionSink for RecordingSink {
    closed spec fn batches(&self) -> Seq<Seq<(Seq<char>, int)>> {
        Seq::new(self.received@.len(), |i: int| tx_views(self.received@[i]@))
    }

    fn handle_transactions(&mut self, transactions: &Vec<Transaction>) {
        let mut copy: Vec<Transaction> = Vec::new();
        let mut i: usize = 0;
        while i < transactions.len()
            invariant
                i <= transactions@.len(),
                copy@.len() == i as int,
                tx_views(copy@) == tx_views(transactions@).take(i as int),
            decreases transactions@.len() - i,
        {
            let ghost prev = copy@;
            let t = &transactions[i];
            copy.push(Transaction { address: t.address.clone(), amount: t.amount });
            proof {
                assert forall|j: int| 0 <= j < i + 1 implies #[trigger] tx_views(copy@)[j]
                    == tx_views(transactions@).take(i + 1)[j] by {
                    if j < i {
                        assert(tx_views(prev)[j] == tx_views(transactions@).take(i as int)[j]);
                        assert(copy@[j] == prev[j]);
                    } else {
                        assert(copy@[j]@ == transactions@[j]@);
                    }
                }
                assert(tx_views(copy@) =~= tx_views(transactions@).take(i + 1));
            }
            i += 1;
        }
        proof {
            assert(tx_views(transactions@).take(transactions@.len() as int) =~= tx_views(
                transactions@,
            ));
        }
        self.received.push(copy);
        proof {
            assert(final(self).batches() =~= old(self).batches().push(tx_views(transactions@)));
        }
    }
}

} // verus!
