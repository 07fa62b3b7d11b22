//! The Codex provider of a usage monitor.
//!
//! Credentials and accounts: `stored` (what was read), `auth` (loading credentials), `token` (what a
//! token says), `refresh` (new tokens), `accounts` (which accounts there are), `naming` and
//! `reconcile` (how they are numbered and shown).
//!
//! Usage: `sessions` (which logs there are), `usage` (what a log records), `pricing` (what a use
//! costs), `aggregate` (which uses count).
//!
//! Below them: `text`, `time`, `digest`, `paths`, `json`, `json_text`, `pointers` and `error`. The
//! modules whose names end in `laws` hold what follows for several functions together.
use vstd::prelude::*;

pub mod account_laws;
pub mod accounts;
pub mod aggregate;
pub mod aggregate_laws;
pub mod auth;
pub mod auth_laws;
pub mod credential_laws;
pub mod digest;
pub mod discovery_laws;
pub mod error;
pub mod identity_laws;
pub mod json;
pub mod json_laws;
pub mod json_text;
pub mod naming;
pub mod paths;
pub mod pointers;
pub mod pricing;
pub mod pricing_laws;
pub mod reconcile;
pub mod record_laws;
pub mod refresh;
pub mod refresh_laws;
pub mod session_laws;
pub mod sessions;
pub mod shown_laws;
pub mod stored;
pub mod text;
pub mod text_laws;
pub mod time;
pub mod token;
pub mod usage;
pub mod usage_laws;

verus! {

} // verus!
