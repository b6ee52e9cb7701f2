//! Two ready-made keys, each bound to a fixed slot name.

use vstd::prelude::*;
use vstd::string::StringExecFns;

use crate::key::Key;

verus! {

/// The key of the slot named `hello`.
#[derive(Copy, Clone, PartialEq)]
pub struct Hello;

impl Key for Hello {
    open spec fn name_spec(&self) -> Seq<char> {
        "hello"@
    }

    fn name(&self) -> (r: String) {
        String::from_str("hello")
    }
}

/// The key of the slot named `world`.
#[derive(Copy, Clone, PartialEq)]
pub struct World;

impl Key for World {
    open spec fn name_spec(&self) -> Seq<char> {
        "world"@
    }

    fn name(&self) -> (r: String) {
        String::from_str("world")
    }
}

} // verus!
