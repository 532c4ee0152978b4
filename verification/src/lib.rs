//! State-transition core of a per-owner encrypted-secret vault.
//!
//! Each owner may store a bounded number of opaque ciphertext blobs; the
//! bound grows with a purchased tier, and every capacity-increasing or
//! creation operation is gated by a fee paid to a treasury. The hosting
//! environment (ledger, signature checks, the payment collaborator, the
//! clock) stays outside: handlers receive the authenticated caller, the
//! current time and the payment outcome as plain values and perform the
//! state transition atomically.

pub mod tier;
pub mod state;
pub mod store;
pub mod system;
pub mod laws;
