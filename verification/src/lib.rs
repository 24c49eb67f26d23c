//! A verified core for a ledger transaction aggregator: a keyed in-memory
//! record store with an append-only line format for its backing file, an
//! ingestion state machine that filters fetched transactions against the
//! current epoch under a driver-held deadline, and a query layer with
//! calendar-day filtering and pagination.  Everything that decides or
//! computes lives here under contracts; process wiring, the HTTP server and
//! the remote ledger transport live outside the library.

pub mod codec;
pub mod pipeline;
pub mod query;
pub mod record;
pub mod store;
pub mod strutil;
