//! Resolution of creature identifiers (numeric ids, English or localized names,
//! approximate names, random picks within a region) to sprite filename keys,
//! and of filename keys back to display names.

use vstd::prelude::*;

pub mod list;
pub mod region;

verus! {

/// The generation 8 sprite archive. The application attaches the image files.
pub struct Data;

/// The generation 9 sprite archive. The application attaches the image files.
pub struct DataGen9;

} // verus!
