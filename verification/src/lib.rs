//! A uniform view of the software installed on a machine, gathered from
//! several independent package sources.
//!
//! Every source implements [`Backend`]: it lists its installed packages as
//! [`Package`] records and fetches the metadata of one of them. [`backends`]
//! brings the sources up one by one and returns those that came up in a
//! [`Registry`], each under the identifier of its kind. A source that does not
//! come up is missing from the registry and reported for the log; it never
//! stops the others.
//!
//! The module `attempts` holds the mathematical account of a build and what
//! is proved of it.

pub mod attempts;
pub mod backend;
pub mod builder;
pub mod package;
pub mod registry;
pub mod text;

pub use crate::backend::{Backend, BackendError, Handle};
pub use crate::builder::{backends, Constructor, Diagnostic, Module};
pub use crate::package::{IconName, Package};
pub use crate::registry::Registry;
