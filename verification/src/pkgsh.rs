//! Package build environment support.

use vstd::prelude::*;

pub mod builtins;
pub mod metadata;
pub mod phase;

verus! {

}
