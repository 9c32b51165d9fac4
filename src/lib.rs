//! A wallet owned by several accounts: any owner proposes a call, the owners vote on it,
//! and the call is made once enough of them approve, or dropped once too many reject it.
//! Changes to the owners and to the number of approvals needed are themselves calls the
//! wallet makes to itself.

pub mod account;
pub mod factory;
pub mod laws;
pub mod types;
pub mod wallet;
