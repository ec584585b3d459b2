//! Response extraction: a streaming left-to-right scan over the serialized
//! response body that locates the pagination cursors and each
//! address/amount pair of the balance-change nodes, in document order.

use vstd::prelude::*;
use vstd::string::StrSliceExecFns;
use crate::numbers::{parse_i64, parse_i64_spec};
use crate::search::{find_from, find_spec, lemma_find_bounds};
use crate::tailer::QueryManager;
use crate::transaction::{Transaction, tx_views};

verus! {

pub open spec fn quote_pat() -> Seq<char> {
    "\""@
}

pub open spec fn start_cursor_pat() -> Seq<char> {
    "\"startCursor\":\""@
}

pub open spec fn digest_pat() -> Seq<char> {
    "\"digest\":\""@
}

pub open spec fn end_cursor_pat() -> Seq<char> {
    "\"endCursor\":\""@
}

pub open spec fn address_pat() -> Seq<char> {
    "\"address\":\""@
}

pub open spec fn amount_pat() -> Seq<char> {
    "\"amount\":\""@
}

/// The quoted value after the first occurrence of `pat` at or after `from`:
/// the characters between the end of `pat` and the next `"`, paired with
/// the position of that closing `"`.
pub open spec fn value_after(h: Seq<char>, pat: Seq<char>, from: int) -> Option<(Seq<char>, int)> {
    match find_spec(h, pat, from) {
        None => None,
        Some(i) => {
            let vs = i + pat.len();
            match find_spec(h, quote_pat(), vs) {
                None => None,
                Some(e) => Some((h.subrange(vs, e), e)),
            }
        },
    }
}

/// Discovery extraction: the first `startCursor` value and the first
/// `digest` value of the body; nothing when either is absent.
pub open spec fn anchor_spec(h: Seq<char>) -> Option<(Seq<char>, Seq<char>)> {
    match value_after(h, start_cursor_pat(), 0) {
        None => None,
        Some((c, _)) => match value_after(h, digest_pat(), 0) {
            None => None,
            Some((d, _)) => Some((c, d)),
        },
    }
}

/// The balance changes found scanning `h` from `from`: each `"address":"`
/// occurrence yields its quoted value, then the next `"amount":"` value
/// parsed as a signed 64-bit integer, and the scan resumes after the
/// amount. A missing closing quote, a missing amount, or an unparseable
/// amount rejects the whole scan.
pub open spec fn records_spec(h: Seq<char>, from: int) -> Option<Seq<(Seq<char>, int)>>
    decreases h.len() - from
    via records_spec_decreases
{
    match find_spec(h, address_pat(), from) {
        None => Some(Seq::empty()),
        Some(i) => {
            let a_start = i + address_pat().len();
            match find_spec(h, quote_pat(), a_start) {
                None => None,
                Some(a_end) => {
                    let addr = h.subrange(a_start, a_end);
                    match value_after(h, amount_pat(), a_end) {
                        None => None,
                        Some((amt, amt_end)) => match parse_i64_spec(amt) {
                            None => None,
                            Some(v) => match records_spec(h, amt_end) {
                                None => None,
                                Some(rest) => Some(seq![(addr, v)] + rest),
                            },
                        },
                    }
                },
            }
        },
    }
}

#[via_fn]
proof fn records_spec_decreases(h: Seq<char>, from: int) {
    reveal_strlit("\"address\":\"");
    reveal_strlit("\"amount\":\"");
    reveal_strlit("\"");
    lemma_find_bounds(h, address_pat(), from);
    match find_spec(h, address_pat(), from) {
        None => {},
        Some(i) => {
            let a_start = i + address_pat().len();
            lemma_find_bounds(h, quote_pat(), a_start);
            match find_spec(h, quote_pat(), a_start) {
                None => {},
                Some(a_end) => {
                    lemma_find_bounds(h, amount_pat(), a_end);
                    match find_spec(h, amount_pat(), a_end) {
                        None => {},
                        Some(j) => {
                            lemma_find_bounds(h, quote_pat(), j + amount_pat().len());
                        },
                    }
                },
            }
        },
    }
}

/// Page extraction: the first `endCursor` value, and the balance changes of
/// the rest of the body in document order; nothing when the cursor is
/// absent or the scan rejects.
pub open spec fn page_spec(h: Seq<char>) -> Option<(Seq<char>, Seq<(Seq<char>, int)>)> {
    match value_after(h, end_cursor_pat(), 0) {
        None => None,
        Some((c, e)) => match records_spec(h, e) {
            None => None,
            Some(rs) => Some((c, rs)),
        },
    }
}

impl QueryManager {
    /// Discovery extraction over a response body: the seed cursor and the
    /// first digest, `None` when either field is absent.
    pub fn parse_start_checkpoint(&self, html_data: &String) -> (r: Option<(String, String)>)
        ensures
            match r {
                Some(p) => anchor_spec(html_data@) == Some((p.0@, p.1@)),
                None => anchor_spec(html_data@) is None,
            },
    {
        let h = html_data.as_str();
        let n = h.unicode_len();
        let sc_pat = "\"startCursor\":\"";
        let i = match find_from(h, 0, sc_pat) {
            Some(i) => i,
            None => {
                return None;
            },
        };
        proof {
            lemma_find_bounds(h@, start_cursor_pat(), 0);
            assert(i as int + sc_pat@.len() <= n as int);
        }
        let vs = i + sc_pat.unicode_len();
        let e = match find_from(h, vs, "\"") {
            Some(e) => e,
            None => {
                return None;
            },
        };
        proof {
            lemma_find_bounds(h@, quote_pat(), vs as int);
            reveal_strlit("\"");
        }
        let cursor = h.substring_char(vs, e).to_owned();

        let dg_pat = "\"digest\":\"";
        let di = match find_from(h, 0, dg_pat) {
            Some(di) => di,
            None => {
                return None;
            },
        };
        proof {
            lemma_find_bounds(h@, digest_pat(), 0);
            assert(di as int + dg_pat@.len() <= n as int);
        }
        let dvs = di + dg_pat.unicode_len();
        let de = match find_from(h, dvs, "\"") {
            Some(de) => de,
            None => {
                return None;
            },
        };
        proof {
            lemma_find_bounds(h@, quote_pat(), dvs as int);
            reveal_strlit("\"");
        }
        let digest = h.substring_char(dvs, de).to_owned();
        Some((cursor, digest))
    }

    /// Page extraction over a response body: the `endCursor` and the
    /// balance changes in document order; `None` when the cursor is absent
    /// or any record is malformed.
    pub fn parse_checkpoint_query_for_transaction_info(&self, html_data: &String) -> (r: Option<
        (String, Vec<Transaction>),
    >)
        ensures
            match r {
                Some(p) => page_spec(html_data@) == Some((p.0@, tx_views(p.1@))),
                None => page_spec(html_data@) is None,
            },
    {
        let h = html_data.as_str();
        let n = h.unicode_len();
        let ec_pat = "\"endCursor\":\"";
        let i = match find_from(h, 0, ec_pat) {
            Some(i) => i,
            None => {
                return None;
            },
        };
        proof {
            lemma_find_bounds(h@, end_cursor_pat(), 0);
            assert(i as int + ec_pat@.len() <= n as int);
        }
        let vs = i + ec_pat.unicode_len();
        let e = match find_from(h, vs, "\"") {
            Some(e) => e,
            None => {
                return None;
            },
        };
        proof {
            lemma_find_bounds(h@, quote_pat(), vs as int);
            reveal_strlit("\"");
        }
        let end_cursor = h.substring_char(vs, e).to_owned();
        proof {
            assert(value_after(h@, end_cursor_pat(), 0) == Some((end_cursor@, e as int)));
        }

        let mut transactions: Vec<Transaction> = Vec::new();
        let mut pos: usize = e;
        loop
            invariant
                pos <= n,
                n == h@.len(),
                h@ == html_data@,
                value_after(h@, end_cursor_pat(), 0) == Some((end_cursor@, e as int)),
                ({
                    let full = records_spec(h@, e as int);
                    let rest = records_spec(h@, pos as int);
                    &&& (rest is None ==> full is None)
                    &&& (rest is Some ==> full is Some && full.unwrap() == tx_views(
                        transactions@,
                    ) + rest.unwrap())
                }),
            ensures
                h@ == html_data@,
                value_after(h@, end_cursor_pat(), 0) == Some((end_cursor@, e as int)),
                records_spec(h@, e as int) == Some(tx_views(transactions@)),
            decreases n - pos,
        {
            let ad_pat = "\"address\":\"";
            let ai = match find_from(h, pos, ad_pat) {
                Some(ai) => ai,
                None => {
                    proof {
                        assert(records_spec(h@, pos as int) == Some(
                            Seq::<(Seq<char>, int)>::empty(),
                        ));
                        assert(tx_views(transactions@) + Seq::<(Seq<char>, int)>::empty()
                            =~= tx_views(transactions@));
                    }
                    break ;
                },
            };
            proof {
                lemma_find_bounds(h@, address_pat(), pos as int);
                assert(ai as int + ad_pat@.len() <= n as int);
            }
            let a_start = ai + ad_pat.unicode_len();
            let a_end = match find_from(h, a_start, "\"") {
                Some(a_end) => a_end,
                None => {
                    return None;
                },
            };
            proof {
                lemma_find_bounds(h@, quote_pat(), a_start as int);
                reveal_strlit("\"");
            }
            let address = h.substring_char(a_start, a_end).to_owned();

            let am_pat = "\"amount\":\"";
            let mi = match find_from(h, a_end, am_pat) {
                Some(mi) => mi,
                None => {
                    return None;
                },
            };
            proof {
                lemma_find_bounds(h@, amount_pat(), a_end as int);
                assert(mi as int + am_pat@.len() <= n as int);
            }
            let m_start = mi + am_pat.unicode_len();
            let m_end = match find_from(h, m_start, "\"") {
                Some(m_end) => m_end,
                None => {
                    return None;
                },
            };
            proof {
                lemma_find_bounds(h@, quote_pat(), m_start as int);
                reveal_strlit("\"");
            }
            let amount_str = h.substring_char(m_start, m_end);
            let amount = match parse_i64(amount_str) {
                Some(v) => v,
                None => {
                    return None;
                },
            };
            let ghost old_txs = transactions@;
            transactions.push(Transaction { address, amount });
            proof {
                let rec = (h@.subrange(a_start as int, a_end as int), amount as int);
                assert(find_spec(h@, address_pat(), pos as int) == Some(ai as int));
                assert(find_spec(h@, quote_pat(), ai + address_pat().len()) == Some(a_end as int));
                assert(value_after(h@, amount_pat(), a_end as int) == Some(
                    (h@.subrange(m_start as int, m_end as int), m_end as int),
                ));
                assert(parse_i64_spec(h@.subrange(m_start as int, m_end as int)) == Some(
                    amount as int,
                ));
                assert(tx_views(transactions@) =~= tx_views(old_txs).push(rec));
                if records_spec(h@, m_end as int) is Some {
                    assert(records_spec(h@, pos as int) == Some(
                        seq![rec] + records_spec(h@, m_end as int).unwrap(),
                    ));
                    assert(tx_views(old_txs) + records_spec(h@, pos as int).unwrap() =~= tx_views(
                        transactions@,
                    ) + records_spec(h@, m_end as int).unwrap());
                } else {
                    assert(records_spec(h@, pos as int) is None);
                }
            }
            pos = m_end;
        }
        Some((end_cursor, transactions))
    }
}

} // verus!
