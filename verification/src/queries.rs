//! The two GraphQL request bodies: the discovery query for a recent
//! `startCursor`, and the forward-page query after a given cursor.

use vstd::prelude::*;
use vstd::string::StringExecFns;

verus! {

/// Body of the discovery query: the window of the ten most recent
/// checkpoints, whose `startCursor` seeds the tailing loop a few positions
/// behind the tip.
pub open spec fn discovery_body() -> Seq<char> {
    "{\"query\":\"query ($before: String) { checkpoints(last: 10, before: $before) { pageInfo { startCursor } nodes { digest timestamp } }}\"}"@
}

/// Body of the forward-page query after `cursor`: one checkpoint per page,
/// with the cursor interpolated verbatim into the `variables` object.
pub open spec fn page_body(cursor: Seq<char>) -> Seq<char> {
    page_prefix() + cursor + page_suffix()
}

pub open spec fn page_prefix() -> Seq<char> {
    "{\"query\":\"query ($after: String) { checkpoints(first: 1, after: $after) { pageInfo { hasNextPage endCursor } nodes { timestamp transactionBlocks { edges { node { effects { balanceChanges { nodes { owner { address } amount }}}}}}} }}\",\"variables\":{\"after\":\""@
}

pub open spec fn page_suffix() -> Seq<char> {
    "\"}}"@
}

/// Builds the discovery request body.
pub fn discovery_query() -> (r: String)
    ensures
        r@ == discovery_body(),
{
    "{\"query\":\"query ($before: String) { checkpoints(last: 10, before: $before) { pageInfo { startCursor } nodes { digest timestamp } }}\"}".to_owned()
}

/// Builds the forward-page request body after `cursor`.
pub fn forward_page_query(cursor: &str) -> (r: String)
    ensures
        r@ == page_body(cursor@),
{
    let mut data: String =
        "{\"query\":\"query ($after: String) { checkpoints(first: 1, after: $after) { pageInfo { hasNextPage endCursor } nodes { timestamp transactionBlocks { edges { node { effects { balanceChanges { nodes { owner { address } amount }}}}}}} }}\",\"variables\":{\"after\":\"".to_owned();
    data.append(cursor);
    data.append("\"}}");
    data
}

} // verus!
