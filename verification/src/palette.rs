//! The 256-entry RGB palette shared by the archive resources and the
//! animation decoder.

use vstd::prelude::*;

use crate::util::zero_vec;

verus! {

/// Bytes in a full palette: 256 colors of 3 bytes (R, G, B) each.
pub const PALETTE_WIDTH: usize = 768;

/// An indexed-color palette: 256 entries of 3 bytes each, in R, G, B order.
#[derive(Debug)]
pub struct Palette {
    pub data: Vec<u8>,
}

impl Palette {
    /// A palette always holds exactly [`PALETTE_WIDTH`] bytes.
    pub open spec fn wf(&self) -> bool {
        self.data@.len() == PALETTE_WIDTH
    }
}

impl Default for Palette {
    /// The all-black palette.
    fn default() -> (p: Palette)
        ensures
            p.wf(),
            forall|j: int| 0 <= j < PALETTE_WIDTH ==> p.data@[j] == 0u8,
    {
        Palette { data: zero_vec(PALETTE_WIDTH) }
    }
}

} // verus!
