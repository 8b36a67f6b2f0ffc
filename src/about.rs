//! The about page keeps no state of its own.
use vstd::prelude::*;

verus! {

/// Settings of the about page.
#[derive(Copy, Clone, Debug, Default, PartialEq, Eq, Structural)]
pub struct Setting;

} // verus!
