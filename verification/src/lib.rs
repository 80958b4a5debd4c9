//! Client-side model of the BlueZ daemon's D-Bus object tree.
//!
//! BlueZ publishes a flat map from object path to the interfaces each object
//! implements, and each interface carries a map of dynamically typed
//! properties.  There is no parent-pointer API: relationships (devices under
//! an adapter, characteristics under a GATT service, ...) are derived by
//! scanning this snapshot for interface membership and for parent-link
//! properties whose string value equals the parent's path.
//!
//! This crate holds that discovery and filtering core, verified: the
//! [`tree`] module models one snapshot as plain values, and the [`query`]
//! module filters it into parent/child relationships.  The bus transport
//! itself (connection setup, method calls, property reads and writes) is
//! unverified glue that hands snapshots to this crate and takes path lists
//! back.

pub mod laws;
pub mod query;
pub mod tree;
