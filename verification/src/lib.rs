//! CashLog: the verified core of a small personal-finance tracker.
//!
//! Users log in through emailed single-use tokens, record balance
//! observations per bank account, and read aggregated views.  The heart of
//! the crate is the credential store model ([`store::Store`]): accounts,
//! account emails, sessions, login tokens, bank accounts and balance
//! entries, together with the passwordless login flow and the ledger
//! queries, all specified and proved against ghost views of the store.
//! The [`laws`] module states the properties the whole is meant to keep
//! — one account per email, exactly-once effects of redemption, what
//! the soft-delete filters hide, exact decimal arithmetic — as proved
//! lemmas over the store's transitions.

pub mod amount;
pub mod error;
pub mod export;
pub mod flow;
pub mod laws;
pub mod ledger;
pub mod model;
pub mod requests;
pub mod seqtools;
pub mod store;
pub mod text;
pub mod timestamp;
pub mod tmpl;
pub mod util;
