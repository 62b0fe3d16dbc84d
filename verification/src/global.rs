//! Game-wide shared state: the current palettes, the black-palette flag and
//! the volume settings.

use vstd::prelude::*;

use crate::palette::PALETTE_WIDTH;
use crate::palette::Palette;
use crate::util::zero_vec;

verus! {

/// Bytes of the speech/plasma scratch buffer.
pub const BUFFER_SPEAK_LEN: usize = 256 * 1024 + 34;

/// Game-wide state shared between the archive loaders, the animation
/// playback and the presentation layer.
#[derive(Debug)]
pub struct Global {
    /// Palette of the picture currently on screen.
    pub palette_pcx: Palette,
    /// The archive-wide resource palette.
    pub palette: Palette,
    /// Whether the display palette currently is all black.
    pub flag_black_pal: bool,
    /// Scratch buffer for speech samples and plasma effects.
    pub buffer_speak: Vec<u8>,
    pub sample_volume: u32,
    pub music_volume: u32,
    pub cd_volume: u32,
    pub line_volume: u32,
    pub master_volume: u32,
}

impl Global {
    pub open spec fn wf(&self) -> bool {
        &&& self.palette_pcx.wf()
        &&& self.palette.wf()
        &&& self.buffer_speak@.len() == BUFFER_SPEAK_LEN
    }
}

impl Default for Global {
    /// Black palettes, zeroed buffers, muted volumes.
    fn default() -> (g: Global)
        ensures
            g.wf(),
            !g.flag_black_pal,
            forall|j: int| 0 <= j < PALETTE_WIDTH ==> g.palette_pcx.data@[j] == 0u8,
            forall|j: int| 0 <= j < PALETTE_WIDTH ==> g.palette.data@[j] == 0u8,
            g.sample_volume == 0 && g.music_volume == 0 && g.cd_volume == 0 && g.line_volume == 0
                && g.master_volume == 0,
    {
        Global {
            palette_pcx: Palette::default(),
            palette: Palette::default(),
            flag_black_pal: false,
            buffer_speak: zero_vec(BUFFER_SPEAK_LEN),
            sample_volume: 0,
            music_volume: 0,
            cd_volume: 0,
            line_volume: 0,
            master_volume: 0,
        }
    }
}

} // verus!
