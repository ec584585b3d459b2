//! The checkpoint-tailing loop: retried discovery of a start cursor, then a
//! bounded number of retried forward pages, each successful page delivered
//! to the sink and its `endCursor` taken as the next position.

use vstd::prelude::*;
use crate::{CHECKPOINTS_TO_READ, HTTP_RETRY_LIMIT};
use crate::queries::{discovery_body, discovery_query, forward_page_query, page_body};
use crate::extract::{anchor_spec, page_spec};
use crate::transaction::{Transaction, TransactionSink, tx_views};

verus! {

/// One HTTP exchange: the request body sent, and the response body when the
/// transport reported success (`None` on any other status or on a
/// transport error).
pub type HttpCall = (Seq<char>, Option<Seq<char>>);

pub open spec fn opt_view(o: Option<String>) -> Option<Seq<char>> {
    match o {
        Some(s) => Some(s@),
        None => None,
    }
}

/// The HTTP transport collaborator: a synchronous POST of a request body to
/// the fixed GraphQL endpoint. `history()` is the log of exchanges made
/// through the transport, oldest first. Implementations live outside the
/// library (the transport performs network I/O); `post` is trusted to
/// extend the log by exactly the exchange it performed, and to return the
/// response body exactly on HTTP 200.
pub trait HttpExecutor {
    /// The default log is empty: an implementation whose log the verified
    /// contracts should reflect overrides this, as the replay transport
    /// does.
    open spec fn history(&self) -> Seq<HttpCall> {
        Seq::empty()
    }

    fn post(&mut self, body: &str) -> (r: Option<String>)
        ensures
            final(self).history() == old(self).history().push((body@, opt_view(r))),
    ;
}

/// A response on which discovery extraction succeeds.
pub open spec fn anchor_ok(resp: Option<Seq<char>>) -> bool {
    resp is Some && anchor_spec(resp.unwrap()) is Some
}

/// A response on which page extraction succeeds.
pub open spec fn page_ok(resp: Option<Seq<char>>) -> bool {
    resp is Some && page_spec(resp.unwrap()) is Some
}

/// The calls of one retried forward-page round at cursor `c`: between 1 and
/// `HTTP_RETRY_LIMIT` attempts, every request the page query at `c`, every
/// attempt but the last a failure, and the round ending either with the
/// first success or after exactly `HTTP_RETRY_LIMIT` attempts.
pub open spec fn round_calls_ok(seg: Seq<HttpCall>, c: Seq<char>) -> bool {
    &&& 1 <= seg.len() <= HTTP_RETRY_LIMIT as int
    &&& forall|j: int| 0 <= j < seg.len() ==> (#[trigger] seg[j]).0 == page_body(c)
    &&& forall|j: int| 0 <= j < seg.len() - 1 ==> !page_ok((#[trigger] seg[j]).1)
    &&& (page_ok(seg.last().1) || seg.len() == HTTP_RETRY_LIMIT as int)
}

/// The cursor after a round: the page's `endCursor` on success, the old
/// cursor unchanged on exhaustion.
pub open spec fn round_next(seg: Seq<HttpCall>, c: Seq<char>) -> Seq<char> {
    if page_ok(seg.last().1) {
        page_spec(seg.last().1.unwrap()).unwrap().0
    } else {
        c
    }
}

/// What a round delivers to the sink: the successful page's balance
/// changes, in document order, or nothing on exhaustion.
pub open spec fn round_delivered(seg: Seq<HttpCall>) -> Seq<Seq<(Seq<char>, int)>> {
    if page_ok(seg.last().1) {
        seq![page_spec(seg.last().1.unwrap()).unwrap().1]
    } else {
        Seq::empty()
    }
}

/// Everything one retried forward-page round guarantees, stated over the
/// transport history and the sink batches before and after the round.
pub open spec fn round_ensures(
    h0: Seq<HttpCall>,
    h1: Seq<HttpCall>,
    b0: Seq<Seq<(Seq<char>, int)>>,
    b1: Seq<Seq<(Seq<char>, int)>>,
    c: Seq<char>,
    r: Seq<char>,
) -> bool {
    &&& h0.len() <= h1.len()
    &&& h1.take(h0.len() as int) == h0
    &&& round_calls_ok(h1.skip(h0.len() as int), c)
    &&& r == round_next(h1.skip(h0.len() as int), c)
    &&& b1 == b0 + round_delivered(h1.skip(h0.len() as int))
}

/// The calls of the retried discovery: like a forward-page round, with the
/// discovery query and anchor extraction in place of the page ones.
pub open spec fn discovery_calls_ok(seg: Seq<HttpCall>) -> bool {
    &&& 1 <= seg.len() <= HTTP_RETRY_LIMIT as int
    &&& forall|j: int| 0 <= j < seg.len() ==> (#[trigger] seg[j]).0 == discovery_body()
    &&& forall|j: int| 0 <= j < seg.len() - 1 ==> !anchor_ok((#[trigger] seg[j]).1)
    &&& (anchor_ok(seg.last().1) || seg.len() == HTTP_RETRY_LIMIT as int)
}

/// Retry attempt count for a forward-page round: the operation is invoked
/// exactly min(HTTP_RETRY_LIMIT, attempts-until-first-success) times. A
/// success is always the round's last call, and a round without a success
/// makes exactly `HTTP_RETRY_LIMIT` calls.
pub proof fn lemma_retry_attempt_count(seg: Seq<HttpCall>, c: Seq<char>)
    requires
        round_calls_ok(seg, c),
    ensures
        forall|s: int| 0 <= s < seg.len() && page_ok((#[trigger] seg[s]).1) ==> s == seg.len() - 1,
        (forall|s: int| 0 <= s < seg.len() ==> !page_ok((#[trigger] seg[s]).1)) ==> seg.len()
            == HTTP_RETRY_LIMIT as int,
{
}

/// Retry attempt count for discovery: as for a forward-page round, with
/// anchor extraction in place of page extraction.
pub proof fn lemma_discovery_attempt_count(seg: Seq<HttpCall>)
    requires
        discovery_calls_ok(seg),
    ensures
        forall|s: int|
            0 <= s < seg.len() && anchor_ok((#[trigger] seg[s]).1) ==> s == seg.len() - 1,
        (forall|s: int| 0 <= s < seg.len() ==> !anchor_ok((#[trigger] seg[s]).1)) ==> seg.len()
            == HTTP_RETRY_LIMIT as int,
{
}

/// A transport history segment and a batch log that together form exactly
/// `n` consecutive retried forward-page rounds: the first round queries at
/// `c_in`, every later round queries at the cursor the round before it
/// produced, every successful round appends its page's balance changes to
/// the batch log, and `c_out` is the cursor after the last round. This is
/// the cursor chain: no cursor is skipped and none is revisited except by
/// a round that exhausted its retries.
pub open spec fn rounds_ok(
    seg: Seq<HttpCall>,
    batches: Seq<Seq<(Seq<char>, int)>>,
    c_in: Seq<char>,
    c_out: Seq<char>,
    n: int,
) -> bool
    decreases n,
{
    if n <= 0 {
        seg.len() == 0 && batches.len() == 0 && c_out == c_in
    } else {
        exists|k: int|
            {
                &&& 1 <= k <= seg.len()
                &&& #[trigger] round_calls_ok(seg.take(k), c_in)
                &&& round_delivered(seg.take(k)).len() <= batches.len()
                &&& batches.take(round_delivered(seg.take(k)).len() as int) == round_delivered(
                    seg.take(k),
                )
                &&& rounds_ok(
                    seg.skip(k),
                    batches.skip(round_delivered(seg.take(k)).len() as int),
                    round_next(seg.take(k), c_in),
                    c_out,
                    n - 1,
                )
            }
    }
}

/// Appending one further round to `n` rounds yields `n + 1` rounds.
pub proof fn lemma_rounds_snoc(
    seg1: Seq<HttpCall>,
    b1: Seq<Seq<(Seq<char>, int)>>,
    c0: Seq<char>,
    c1: Seq<char>,
    n: int,
    seg2: Seq<HttpCall>,
    b2: Seq<Seq<(Seq<char>, int)>>,
    c2: Seq<char>,
)
    requires
        n >= 0,
        rounds_ok(seg1, b1, c0, c1, n),
        round_calls_ok(seg2, c1),
        c2 == round_next(seg2, c1),
        b2 == round_delivered(seg2),
    ensures
        rounds_ok(seg1 + seg2, b1 + b2, c0, c2, n + 1),
    decreases n,
{
    if n <= 0 {
        let k = seg2.len() as int;
        let d = round_delivered(seg2).len() as int;
        assert(seg1 + seg2 =~= seg2);
        assert(b1 + b2 =~= b2);
        assert(seg2.take(k) =~= seg2);
        assert(seg2.skip(k) =~= Seq::<HttpCall>::empty());
        assert(b2.take(d) =~= round_delivered(seg2));
        assert(b2.skip(d) =~= Seq::<Seq<(Seq<char>, int)>>::empty());
        assert(rounds_ok(
            Seq::<HttpCall>::empty(),
            Seq::<Seq<(Seq<char>, int)>>::empty(),
            c2,
            c2,
            0,
        ));
        assert(round_calls_ok((seg1 + seg2).take(k), c0));
        assert(rounds_ok(seg1 + seg2, b1 + b2, c0, c2, n + 1));
    } else {
        let k = choose|k: int|
            {
                &&& 1 <= k <= seg1.len()
                &&& #[trigger] round_calls_ok(seg1.take(k), c0)
                &&& round_delivered(seg1.take(k)).len() <= b1.len()
                &&& b1.take(round_delivered(seg1.take(k)).len() as int) == round_delivered(
                    seg1.take(k),
                )
                &&& rounds_ok(
                    seg1.skip(k),
                    b1.skip(round_delivered(seg1.take(k)).len() as int),
                    round_next(seg1.take(k), c0),
                    c1,
                    n - 1,
                )
            };
        let d = round_delivered(seg1.take(k)).len() as int;
        assert(d <= b1.len());
        lemma_rounds_snoc(
            seg1.skip(k),
            b1.skip(d),
            round_next(seg1.take(k), c0),
            c1,
            n - 1,
            seg2,
            b2,
            c2,
        );
        assert((seg1 + seg2).take(k) =~= seg1.take(k));
        assert((seg1 + seg2).skip(k) =~= seg1.skip(k) + seg2);
        assert((b1 + b2).take(d) =~= b1.take(d));
        assert((b1 + b2).skip(d) =~= b1.skip(d) + b2);
        assert(round_calls_ok((seg1 + seg2).take(k), c0));
        assert(rounds_ok(seg1 + seg2, b1 + b2, c0, c2, n + 1));
    }
}

/// `n` rounds make at most `n * HTTP_RETRY_LIMIT` forward-page calls and
/// deliver at most `n` batches.
pub proof fn lemma_rounds_bounds(
    seg: Seq<HttpCall>,
    batches: Seq<Seq<(Seq<char>, int)>>,
    c_in: Seq<char>,
    c_out: Seq<char>,
    n: int,
)
    requires
        n >= 0,
        rounds_ok(seg, batches, c_in, c_out, n),
    ensures
        seg.len() <= n * HTTP_RETRY_LIMIT as int,
        batches.len() <= n,
    decreases n,
{
    if n <= 0 {
    } else {
        let k = choose|k: int|
            {
                &&& 1 <= k <= seg.len()
                &&& #[trigger] round_calls_ok(seg.take(k), c_in)
                &&& round_delivered(seg.take(k)).len() <= batches.len()
                &&& batches.take(round_delivered(seg.take(k)).len() as int) == round_delivered(
                    seg.take(k),
                )
                &&& rounds_ok(
                    seg.skip(k),
                    batches.skip(round_delivered(seg.take(k)).len() as int),
                    round_next(seg.take(k), c_in),
                    c_out,
                    n - 1,
                )
            };
        let d = round_delivered(seg.take(k)).len() as int;
        assert(d <= 1);
        assert(d <= batches.len());
        lemma_rounds_bounds(
            seg.skip(k),
            batches.skip(d),
            round_next(seg.take(k), c_in),
            c_out,
            n - 1,
        );
        assert((n - 1) * HTTP_RETRY_LIMIT as int + HTTP_RETRY_LIMIT as int == n
            * HTTP_RETRY_LIMIT as int) by (nonlinear_arith);
    }
}

/// Drives the checkpoint queries and owns the tailing loop.
pub struct QueryManager {}

impl QueryManager {
    /// One discovery attempt: posts the discovery query and extracts the
    /// anchor (startCursor, digest) from the response; `None` on a failed
    /// exchange or a response without the anchor fields.
    pub fn query_latest_checkpoint<H: HttpExecutor>(&self, http: &mut H) -> (r: Option<
        (String, String),
    >)
        ensures
            ({
                let hist = final(http).history();
                &&& hist == old(http).history().push(hist.last())
                &&& hist.last().0 == discovery_body()
                &&& (anchor_ok(hist.last().1) <==> r is Some)
                &&& match r {
                    Some(p) => anchor_spec(hist.last().1.unwrap()) == Some((p.0@, p.1@)),
                    None => true,
                }
            }),
    {
        let data = discovery_query();
        let html_data = http.post(data.as_str());
        match html_data {
            Some(body) => self.parse_start_checkpoint(&body),
            None => None,
        }
    }

    /// One forward-page attempt at `cursor`: posts the page query and
    /// extracts (endCursor, balance changes) from the response; `None` on a
    /// failed exchange or a response the extractor rejects.
    pub fn query_single_checkpoint<H: HttpExecutor>(&self, cursor: &String, http: &mut H) -> (r:
        Option<(String, Vec<Transaction>)>)
        ensures
            ({
                let hist = final(http).history();
                &&& hist == old(http).history().push(hist.last())
                &&& hist.last().0 == page_body(cursor@)
                &&& (page_ok(hist.last().1) <==> r is Some)
                &&& match r {
                    Some(p) => page_spec(hist.last().1.unwrap()) == Some((p.0@, tx_views(p.1@))),
                    None => true,
                }
            }),
    {
        let data = forward_page_query(cursor.as_str());
        let html_data = http.post(data.as_str());
        match html_data {
            Some(body) => self.parse_checkpoint_query_for_transaction_info(&body),
            None => None,
        }
    }

    /// One retried forward page at `cursor`: up to `HTTP_RETRY_LIMIT`
    /// attempts. On the first success the page's balance changes go to the
    /// sink, in document order, and the page's `endCursor` is returned; on
    /// exhaustion the sink is not called and the cursor comes back
    /// unchanged.
    pub fn query_checkpoints<H: HttpExecutor, S: TransactionSink>(
        &self,
        cursor: String,
        transaction_manager: &mut S,
        http: &mut H,
    ) -> (r: String)
        ensures
            round_ensures(
                old(http).history(),
                final(http).history(),
                old(transaction_manager).batches(),
                final(transaction_manager).batches(),
                cursor@,
                r@,
            ),
    {
        let ghost h0 = http.history();
        let ghost b0 = transaction_manager.batches();
        let mut checkpoint_retry_counter: i32 = 0;
        loop
            invariant
                0 <= checkpoint_retry_counter < HTTP_RETRY_LIMIT,
                http.history().len() == h0.len() + checkpoint_retry_counter,
                http.history().take(h0.len() as int) == h0,
                forall|j: int|
                    h0.len() <= j < http.history().len() ==> (#[trigger] http.history()[j]).0
                        == page_body(cursor@) && !page_ok(http.history()[j].1),
                transaction_manager.batches() == b0,
                h0 == old(http).history(),
                b0 == old(transaction_manager).batches(),
            decreases HTTP_RETRY_LIMIT - checkpoint_retry_counter,
        {
            checkpoint_retry_counter = checkpoint_retry_counter + 1;
            let attempt = self.query_single_checkpoint(&cursor, http);
            if let Some(result) = attempt {
                let (end_cursor, transactions) = result;
                transaction_manager.handle_transactions(&transactions);
                proof {
                    let seg = http.history().skip(h0.len() as int);
                    assert(seg.last() == http.history().last());
                    assert(http.history().take(h0.len() as int) =~= h0);
                    assert(round_calls_ok(seg, cursor@));
                    assert(transaction_manager.batches() =~= b0 + round_delivered(seg));
                }
                return end_cursor;
            }
            if checkpoint_retry_counter == HTTP_RETRY_LIMIT {
                proof {
                    let seg = http.history().skip(h0.len() as int);
                    assert(http.history().take(h0.len() as int) =~= h0);
                    assert(seg.last() == http.history().last());
                    assert(round_calls_ok(seg, cursor@));
                    assert(transaction_manager.batches() =~= b0 + round_delivered(seg));
                }
                return cursor;
            }
        }
    }

    /// The tailing loop. Discovery is retried up to `HTTP_RETRY_LIMIT`
    /// times for a start cursor; on exhaustion nothing further happens and
    /// `false` comes back (the caller treats that as fatal). Otherwise
    /// exactly `CHECKPOINTS_TO_READ` retried forward-page rounds follow,
    /// each successful round delivering its page's balance changes to the
    /// sink and advancing the cursor to the page's `endCursor`, each
    /// exhausted round advancing only the iteration count.
    pub fn start<H: HttpExecutor, S: TransactionSink>(
        &self,
        transaction_manager: &mut S,
        http: &mut H,
    ) -> (completed: bool)
        ensures
            ({
                let h0 = old(http).history();
                let h1 = final(http).history();
                let b0 = old(transaction_manager).batches();
                let b1 = final(transaction_manager).batches();
                let seg = h1.skip(h0.len() as int);
                &&& h0.len() <= h1.len()
                &&& h1.take(h0.len() as int) == h0
                &&& b0.len() <= b1.len()
                &&& b1.take(b0.len() as int) == b0
                &&& h1.len() - h0.len() <= HTTP_RETRY_LIMIT as int + HTTP_RETRY_LIMIT as int
                    * CHECKPOINTS_TO_READ as int
                &&& b1.len() - b0.len() <= CHECKPOINTS_TO_READ as int
                &&& exists|k: int|
                    {
                        &&& 1 <= k <= seg.len()
                        &&& #[trigger] discovery_calls_ok(seg.take(k))
                        &&& if anchor_ok(seg.take(k).last().1) {
                            &&& completed
                            &&& exists|c_out: Seq<char>|
                                rounds_ok(
                                    seg.skip(k),
                                    b1.skip(b0.len() as int),
                                    anchor_spec(seg.take(k).last().1.unwrap()).unwrap().0,
                                    c_out,
                                    CHECKPOINTS_TO_READ as int,
                                )
                        } else {
                            &&& !completed
                            &&& seg.len() == k
                            &&& b1 == b0
                        }
                    }
            }),
    {
        let ghost h0 = http.history();
        let ghost b0 = transaction_manager.batches();
        let mut latest_checkpoint_retry_counter: i32 = 0;
        let mut latest_checkpoint_cursor: Option<(String, String)> = None;
        loop
            invariant_except_break
                0 <= latest_checkpoint_retry_counter < HTTP_RETRY_LIMIT,
                latest_checkpoint_cursor is None,
                http.history().len() == h0.len() + latest_checkpoint_retry_counter,
                forall|j: int|
                    h0.len() <= j < http.history().len() ==> (#[trigger] http.history()[j]).0
                        == discovery_body() && !anchor_ok(http.history()[j].1),
            invariant
                http.history().take(h0.len() as int) == h0,
                transaction_manager.batches() == b0,
                h0 == old(http).history(),
                b0 == old(transaction_manager).batches(),
            ensures
                h0.len() < http.history().len(),
                http.history().len() - h0.len() <= HTTP_RETRY_LIMIT as int,
                ({
                    let seg = http.history().skip(h0.len() as int);
                    &&& discovery_calls_ok(seg)
                    &&& match latest_checkpoint_cursor {
                        Some(p) => anchor_ok(seg.last().1) && anchor_spec(seg.last().1.unwrap())
                            == Some((p.0@, p.1@)),
                        None => !anchor_ok(seg.last().1),
                    }
                }),
            decreases HTTP_RETRY_LIMIT - latest_checkpoint_retry_counter,
        {
            latest_checkpoint_retry_counter = latest_checkpoint_retry_counter + 1;
            let attempt = self.query_latest_checkpoint(http);
            if let Some(result) = attempt {
                proof {
                    let seg = http.history().skip(h0.len() as int);
                    assert(seg.last() == http.history().last());
                    assert(discovery_calls_ok(seg));
                }
                latest_checkpoint_cursor = Some(result);
                break ;
            }
            if latest_checkpoint_retry_counter == HTTP_RETRY_LIMIT {
                proof {
                    let seg = http.history().skip(h0.len() as int);
                    assert(seg.last() == http.history().last());
                    assert(discovery_calls_ok(seg));
                }
                break ;
            }
        }
        let ghost hd = http.history();
        let anchor = match latest_checkpoint_cursor {
            Some(p) => p,
            None => {
                proof {
                    let seg = http.history().skip(h0.len() as int);
                    let k = seg.len() as int;
                    assert(seg.take(k) =~= seg);
                    assert(discovery_calls_ok(seg.take(k)));
                    assert(b0.take(b0.len() as int) =~= b0);
                }
                return false;
            },
        };
        let (mut cursor, _digest) = anchor;
        let ghost c0 = cursor@;
        let ghost kd = hd.len() - h0.len();
        let mut counter: i32 = 0;
        proof {
            assert(hd.skip(hd.len() as int) =~= Seq::<HttpCall>::empty());
            assert(b0.skip(b0.len() as int) =~= Seq::<Seq<(Seq<char>, int)>>::empty());
        }
        while counter < CHECKPOINTS_TO_READ
            invariant
                0 <= counter <= CHECKPOINTS_TO_READ,
                hd.len() <= http.history().len(),
                http.history().take(hd.len() as int) == hd,
                b0.len() <= transaction_manager.batches().len(),
                transaction_manager.batches().take(b0.len() as int) == b0,
                rounds_ok(
                    http.history().skip(hd.len() as int),
                    transaction_manager.batches().skip(b0.len() as int),
                    c0,
                    cursor@,
                    counter as int,
                ),
                kd == hd.len() - h0.len(),
                1 <= kd <= HTTP_RETRY_LIMIT as int,
                hd.take(h0.len() as int) == h0,
                discovery_calls_ok(hd.skip(h0.len() as int)),
                anchor_ok(hd.skip(h0.len() as int).last().1),
                c0 == anchor_spec(hd.skip(h0.len() as int).last().1.unwrap()).unwrap().0,
                h0 == old(http).history(),
                b0 == old(transaction_manager).batches(),
            decreases CHECKPOINTS_TO_READ - counter,
        {
            let ghost hb = http.history();
            let ghost bb = transaction_manager.batches();
            let ghost c_prev = cursor@;
            cursor = self.query_checkpoints(cursor, transaction_manager, http);
            proof {
                let seg2 = http.history().skip(hb.len() as int);
                lemma_rounds_snoc(
                    hb.skip(hd.len() as int),
                    bb.skip(b0.len() as int),
                    c0,
                    c_prev,
                    counter as int,
                    seg2,
                    round_delivered(seg2),
                    cursor@,
                );
                assert(http.history().skip(hd.len() as int) =~= hb.skip(hd.len() as int) + seg2);
                assert(transaction_manager.batches().skip(b0.len() as int) =~= bb.skip(
                    b0.len() as int,
                ) + round_delivered(seg2));
                assert(http.history().take(hd.len() as int) =~= hd);
                assert(transaction_manager.batches().take(b0.len() as int) =~= b0);
            }
            counter = counter + 1;
        }
        proof {
            let h1 = http.history();
            let b1 = transaction_manager.batches();
            let seg = h1.skip(h0.len() as int);
            assert(h1.take(h0.len() as int) =~= h0);
            assert(seg.take(kd) =~= hd.skip(h0.len() as int));
            assert(seg.skip(kd) =~= h1.skip(hd.len() as int));
            assert(discovery_calls_ok(seg.take(kd)));
            assert(rounds_ok(
                seg.skip(kd),
                b1.skip(b0.len() as int),
                c0,
                cursor@,
                CHECKPOINTS_TO_READ as int,
            ));
            lemma_rounds_bounds(
                seg.skip(kd),
                b1.skip(b0.len() as int),
                c0,
                cursor@,
                CHECKPOINTS_TO_READ as int,
            );
        }
        true
    }
}

} // verus!
