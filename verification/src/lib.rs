//! Tailing of a blockchain checkpoint stream over a GraphQL endpoint:
//! query construction, response extraction, bounded retries, and the
//! cursor-driven paging loop, with the HTTP transport and the downstream
//! sink abstracted as collaborator traits.

use vstd::prelude::*;

pub mod extract;
pub mod numbers;
pub mod queries;
pub mod replay;
pub mod search;
pub mod tailer;
pub mod transaction;

verus! {

/// Maximum number of attempts for one HTTP operation (attempts, not retries).
pub const HTTP_RETRY_LIMIT: i32 = 5;

/// Number of forward pages the tailing loop reads before it stops.
pub const CHECKPOINTS_TO_READ: i32 = 9;

/// Checkpoints requested per forward page; the page query embeds this value.
pub const CHECKPOINTS_PAGE_SIZE: i32 = 1;

} // verus!
