//! The regions of the national dex, each a fixed inclusive range of ids.

use vstd::prelude::*;

verus! {

/// A region of the national dex.
#[derive(Clone, Copy, Debug, PartialEq, Eq, Structural)]
pub enum Region {
    Kanto,
    Johto,
    Hoenn,
    Sinnoh,
    Einall,
    Kalos,
    Alola,
    Galar,
    Paldea,
}

/// The inclusive id range `(first, last)` of each region.
pub open spec fn region_bounds(region: Region) -> (usize, usize) {
    match region {
        Region::Kanto => (0, 151),
        Region::Johto => (152, 251),
        Region::Hoenn => (252, 386),
        Region::Sinnoh => (387, 493),
        Region::Einall => (494, 649),
        Region::Kalos => (650, 721),
        Region::Alola => (722, 809),
        Region::Galar => (810, 905),
        Region::Paldea => (906, 1025),
    }
}

impl Region {
    /// The inclusive id range `(first, last)` of this region.
    pub fn bounds(&self) -> (r: (usize, usize))
        ensures
            r == region_bounds(*self),
            r.0 <= r.1,
    {
        match self {
            Region::Kanto => (0, 151),
            Region::Johto => (152, 251),
            Region::Hoenn => (252, 386),
            Region::Sinnoh => (387, 493),
            Region::Einall => (494, 649),
            Region::Kalos => (650, 721),
            Region::Alola => (722, 809),
            Region::Galar => (810, 905),
            Region::Paldea => (906, 1025),
        }
    }
}

/// The regions tile the ids `0..=1025` in order: each one starts right after
/// the one before it ends.
pub proof fn lemma_regions_tile()
    ensures
        region_bounds(Region::Kanto).0 == 0,
        region_bounds(Region::Johto).0 == region_bounds(Region::Kanto).1 + 1,
        region_bounds(Region::Hoenn).0 == region_bounds(Region::Johto).1 + 1,
        region_bounds(Region::Sinnoh).0 == region_bounds(Region::Hoenn).1 + 1,
        region_bounds(Region::Einall).0 == region_bounds(Region::Sinnoh).1 + 1,
        region_bounds(Region::Kalos).0 == region_bounds(Region::Einall).1 + 1,
        region_bounds(Region::Alola).0 == region_bounds(Region::Kalos).1 + 1,
        region_bounds(Region::Galar).0 == region_bounds(Region::Alola).1 + 1,
        region_bounds(Region::Paldea).0 == region_bounds(Region::Galar).1 + 1,
        region_bounds(Region::Paldea).1 == 1025,
{
}

} // verus!
