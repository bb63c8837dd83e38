//! Package restrictions, glob and query parsing, and the argument handling of package
//! build commands.

use vstd::prelude::*;

pub mod collections;
pub mod dep;
pub mod error;
pub mod pkg;
pub mod pkgsh;
pub mod repo;
pub mod restrict;
pub mod text;
pub mod types;

pub use error::Error;

verus! {

/// Result type of the library's fallible operations.
pub type Result<T> = core::result::Result<T, Error>;

}
