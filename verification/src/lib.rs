//! Validation of D-Bus bus names: unique names and well-known names.
use vstd::prelude::*;

pub mod chars;
pub mod elements;
pub mod error;
pub mod rules;
pub mod unique_name;
pub mod well_known_name;

pub use error::Error;
pub use unique_name::{OwnedUniqueName, UniqueName};
pub use well_known_name::{OwnedWellKnownName, WellKnownName};

verus! {

} // verus!
