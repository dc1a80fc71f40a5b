//! Loading a network configuration.
use vstd::prelude::*;

verus! {

/// A value that can be read from a configuration file at `path`.
pub trait FromFile: Sized {
    fn from_file(path: &str) -> Self;
}

} // verus!
