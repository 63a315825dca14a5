//! The library's error type.
use vstd::prelude::*;

verus! {

/// Why a name was refused.
#[derive(Clone, Debug, PartialEq, Eq)]
pub enum Error {
    /// The name breaks the rules of its kind; the message says which kind.
    InvalidName(&'static str),
}

} // verus!
