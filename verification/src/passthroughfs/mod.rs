//! The deny list of the passthrough file system.
//!
//! - [`deny`]: the list itself.
//! - [`probe`]: how a mount root's case sensitivity is found out.
//! - [`access`]: what is answered to requests for denied entries.
pub mod access;
pub mod deny;
pub mod probe;
