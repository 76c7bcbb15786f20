//! A secondary stock market kept as a verified state machine: firms receive
//! the right to issue shares, issue and retire them, and holders trade them
//! through limit orders that are matched against the opposite side of the
//! book. Every dispatchable call is specified over the abstract state in
//! `model`, and the properties that span calls are proved in `laws` and
//! `conservation`.

pub mod types;
pub mod hashing;
pub mod ledger;
pub mod model;
pub mod books;
pub mod market;
pub mod conservation;
pub mod laws;
