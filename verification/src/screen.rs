//! The 640 by 480 indexed-color screen buffers the menus and the archive
//! pictures draw into.

use vstd::prelude::*;

use crate::util::dup_vec;
use crate::util::zero_vec;

verus! {

/// Columns of a screen buffer.
pub const WIDTH: usize = 640;

/// Rows of a screen buffer.
pub const HEIGHT: usize = 480;

/// An indexed-color screen buffer of [`WIDTH`] by [`HEIGHT`] pixels, one
/// byte each.
#[derive(Debug)]
pub struct Screen {
    pub data: Vec<u8>,
}

impl Screen {
    /// A screen always holds exactly `WIDTH * HEIGHT` bytes.
    pub open spec fn wf(&self) -> bool {
        self.data@.len() == WIDTH * HEIGHT
    }

    /// Copies this screen's pixels over `dst`'s.
    pub fn copy_to(&self, dst: &mut Screen)
        requires
            self.wf(),
        ensures
            final(dst).data@ == self.data@,
            final(dst).wf(),
    {
        dst.data = dup_vec(&self.data);
    }

    /// Draws nothing: boxes are not implemented by this renderer, and the
    /// screen is left exactly as it was.
    pub fn draw_box(&mut self, x0: u32, y0: u32, x1: u32, y1: u32, color: u8)
        ensures
            final(self).data@ == old(self).data@,
    {
    }
}

impl Default for Screen {
    /// An all-black screen.
    fn default() -> (s: Screen)
        ensures
            s.wf(),
            forall|j: int| 0 <= j < WIDTH * HEIGHT ==> s.data@[j] == 0u8,
    {
        Screen { data: zero_vec(WIDTH * HEIGHT) }
    }
}

} // verus!
