//! Deny lists for bind mounts.
//!
//! A deny list is a list of gitignore-style patterns that hides matching
//! entries of a bind mount from the guest. Patterns without a separator (such
//! as `.env` or `*.log`) are matched against an entry's name anywhere in the
//! tree, patterns with one (such as `dir/secret` or `**/env.secret`) against
//! the entry's path relative to the mount root.
//!
//! - [`paths`]: byte paths, their components, and how components are joined.
//! - [`line`]: what a single gitignore line says.
//! - [`glob`]: how a pattern's body is read.
//! - [`gitignore`]: the `ignore` crate's matcher.
//! - [`rules`]: the rules that a list of patterns comes down to.
//! - [`laws`]: the laws that rules obey.
//! - [`calls`]: the laws that relate calls of the library.
//! - [`deny`]: the plain deny list.
//! - [`passthroughfs`]: the deny list of the passthrough file system, with its
//!   case probe and the answers to denied requests.
pub mod calls;
pub mod deny;
pub mod gitignore;
pub mod glob;
pub mod laws;
pub mod line;
pub mod passthroughfs;
pub mod paths;
pub mod rules;
