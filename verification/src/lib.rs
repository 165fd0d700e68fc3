//! A verified model of a generic-password credential store.
//!
//! The library captures the contract of a thin password-management layer
//! over an operating-system keychain: credentials are opaque byte secrets
//! keyed by a `(service, account)` pair, held in one or more containers,
//! and reached through three operations — find, set (an upsert), and
//! delete — plus the status-code-to-error mapping that every call through
//! the native boundary goes through.

pub mod error;
pub mod keychain;
pub mod laws;
pub mod store;

use vstd::prelude::*;

verus! {

pub use crate::error::CredentialError;
pub use crate::error::map_status;
pub use crate::keychain::Keychain;
pub use crate::keychain::PasswordEntry;
pub use crate::store::CredentialStore;
pub use crate::store::UpsertAction;
pub use crate::store::upsert_action;

} // verus!
