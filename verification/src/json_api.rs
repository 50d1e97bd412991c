//! The small JSON bodies the HTTP surface exchanges.

use vstd::prelude::*;

verus! {

/// An empty JSON body.
#[derive(Clone, Copy, PartialEq, Eq, Structural, Debug, Default)]
pub struct JsonEmpty {}

/// Whether the asking user is allowed what it asked about.
#[derive(Clone, Copy, PartialEq, Eq, Structural, Debug)]
pub struct JsonAllowed {
    pub allowed: bool,
}

} // verus!
