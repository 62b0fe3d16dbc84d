//! The FLA animation container: header parsing, per-frame chunk dispatch,
//! and the playback state machine.
//!
//! A resource starts with a 5-byte NUL-terminated version tag plus one
//! alignment byte, a 32-bit frame count, an 8-bit cadence plus one alignment
//! byte, two 16-bit resolutions, and a sample preload list that is skipped.
//! Then come the frames: each one a block count byte plus pad and a 32-bit
//! byte length, followed by that many payload bytes holding the frame's
//! chunks. A chunk is a kind byte plus pad and a 16-bit offset from the
//! chunk's own start to the next chunk — the authoritative way to advance,
//! whatever the chunk's own decoder consumed.
//!
//! Playback is driven by [`Playback::tick`], one frame per call. The caller
//! presents the framebuffer, performs the returned fade effects, commits the
//! palette per [`Playback::palette_commit`], and paces with
//! [`Playback::frame_duration_ms`]; a cancellation flag is polled once per
//! tick. A frame is decoded atomically: if its payload is malformed, the
//! framebuffer and palette keep their previous state.

use vstd::prelude::*;

use crate::error::ErrorKind;
use crate::frame::FRAME_BYTES;
use crate::frame::FRAME_WIDTH;
use crate::frame::black_frame;
use crate::frame::copy_frame;
use crate::frame::draw_frame;
use crate::frame::filled;
use crate::frame::spec_draw_frame;
use crate::frame::spec_update_frame;
use crate::frame::spliced;
use crate::frame::update_frame;
use crate::palette::PALETTE_WIDTH;
use crate::palette::Palette;
use crate::util::copy_into;
use crate::util::dup_vec;
use crate::util::zero_vec;
use crate::wire::le16_at;
use crate::wire::le32_at;
use crate::wire::read_u16_le;
use crate::wire::read_u32_le;

verus! {

/// The one version tag this decoder plays: the ASCII bytes of "V1.3".
pub open spec fn spec_version_matches(v: Seq<u8>) -> bool {
    v == seq![0x56u8, 0x31u8, 0x2eu8, 0x33u8]
}

/// A valid version field at `pos`: four non-NUL ASCII bytes and a NUL.
pub open spec fn spec_version_ok(d: Seq<u8>, pos: int) -> bool {
    d[pos + 4] == 0 && (forall|i: int| 0 <= i < 4 ==> 1 <= #[trigger] d[pos + i] <= 127)
}

/// The fixed FLA header, parsed once per animation.
#[derive(Debug)]
pub struct HeaderFla {
    /// The 4-byte version tag, without its NUL terminator.
    pub version: Vec<u8>,
    /// How many frames the animation declares.
    pub num_frames: u32,
    /// Declared playback cadence in frames per second.
    pub cadence_animation: u8,
    /// Horizontal resolution; read but not acted on.
    pub resolution_x: u16,
    /// Vertical resolution: the row count of brown-chunk repaints.
    pub resolution_y: u16,
}

impl HeaderFla {
    pub open spec fn wf(&self) -> bool {
        self.version@.len() == 4
    }
}

impl Default for HeaderFla {
    /// An empty header: a NUL version tag that matches no animation.
    fn default() -> (h: HeaderFla)
        ensures
            h.wf(),
            h.version@ == Seq::new(4, |j: int| 0u8),
            h.num_frames == 0,
            h.cadence_animation == 0,
            h.resolution_x == 0,
            h.resolution_y == 0,
    {
        let h = HeaderFla {
            version: zero_vec(4),
            num_frames: 0,
            cadence_animation: 0,
            resolution_x: 0,
            resolution_y: 0,
        };
        proof {
            assert(h.version@ =~= Seq::new(4, |j: int| 0u8));
        }
        h
    }
}

/// A header can be read at `pos`: the field fits and the version tag is a
/// valid fixed-length ASCII/NUL string.
pub open spec fn spec_header_ok(d: Seq<u8>, pos: int) -> bool {
    pos + 16 <= d.len() && spec_version_ok(d, pos)
}

/// The error for a header that cannot be read at `pos`.
pub open spec fn spec_header_err(d: Seq<u8>, pos: int) -> ErrorKind {
    if pos + 16 > d.len() {
        ErrorKind::Truncated
    } else {
        ErrorKind::InvalidFormat
    }
}

/// `h` holds exactly the header fields encoded at `pos` of `d`.
pub open spec fn header_matches(d: Seq<u8>, pos: int, h: HeaderFla) -> bool {
    &&& h.version@ == d.subrange(pos, pos + 4)
    &&& h.num_frames == le32_at(d, pos + 6)
    &&& h.cadence_animation == d[pos + 10]
    &&& h.resolution_x == le16_at(d, pos + 12)
    &&& h.resolution_y == le16_at(d, pos + 14)
}

/// Two headers hold the same fields.
pub open spec fn header_unchanged(a: HeaderFla, b: HeaderFla) -> bool {
    &&& a.version@ == b.version@
    &&& a.num_frames == b.num_frames
    &&& a.cadence_animation == b.cadence_animation
    &&& a.resolution_x == b.resolution_x
    &&& a.resolution_y == b.resolution_y
}

/// Parses the fixed FLA header at `pos`: fails with `Truncated` when the
/// field does not fit and with `InvalidFormat` when the version tag is not a
/// valid fixed-length ASCII/NUL string.
pub fn parse_header_fla(d: &[u8], pos: usize) -> (r: Result<HeaderFla, ErrorKind>)
    requires
        pos <= d@.len(),
    ensures
        match r {
            Ok(h) => spec_header_ok(d@, pos as int) && header_matches(d@, pos as int, h) && h.wf(),
            Err(e) => !spec_header_ok(d@, pos as int) && e == spec_header_err(d@, pos as int),
        },
{
    let d_len = d.len();
    if d_len - pos < 16 {
        return Err(ErrorKind::Truncated);
    }
    if d[pos + 4] != 0 {
        return Err(ErrorKind::InvalidFormat);
    }
    let mut version: Vec<u8> = Vec::new();
    let mut i: usize = 0;
    while i < 4
        invariant
            i <= 4,
            pos + 16 <= d_len,
            d_len == d@.len(),
            version@ == d@.subrange(pos as int, pos as int + i),
            forall|j: int| 0 <= j < i ==> 1 <= #[trigger] d@[pos + j] <= 127,
        decreases 4 - i,
    {
        let b = d[pos + i];
        if b == 0 || b > 127 {
            return Err(ErrorKind::InvalidFormat);
        }
        version.push(b);
        proof {
            assert(version@ =~= d@.subrange(pos as int, pos as int + i + 1));
        }
        i = i + 1;
    }
    Ok(
        HeaderFla {
            version,
            num_frames: read_u32_le(d, pos + 6),
            cadence_animation: d[pos + 10],
            resolution_x: read_u16_le(d, pos + 12),
            resolution_y: read_u16_le(d, pos + 14),
        },
    )
}

/// Where the sample preload list starting at `pos` ends: a signed 16-bit
/// count (negative counts preload nothing) plus one unused 16-bit field,
/// then four bytes per preloaded sample.
pub open spec fn spec_sample_list_end(d: Seq<u8>, pos: int) -> Result<int, ErrorKind> {
    if pos + 4 > d.len() {
        Err(ErrorKind::Truncated)
    } else {
        let raw = le16_at(d, pos);
        let count = if raw >= 0x8000 {
            0
        } else {
            raw
        };
        if pos + 4 + 4 * count > d.len() {
            Err(ErrorKind::Truncated)
        } else {
            Ok(pos + 4 + 4 * count)
        }
    }
}

/// Advances past the sample preload list at `pos`, consuming it without
/// retaining it; preloading itself is out of this decoder's scope.
pub fn skip_sample_list(d: &[u8], pos: usize) -> (r: Result<usize, ErrorKind>)
    requires
        pos <= d@.len(),
    ensures
        match r {
            Ok(end) => spec_sample_list_end(d@, pos as int) == Ok::<int, ErrorKind>(end as int)
                && end <= d@.len(),
            Err(e) => spec_sample_list_end(d@, pos as int) == Err::<int, ErrorKind>(e),
        },
{
    let d_len = d.len();
    if d_len - pos < 4 {
        return Err(ErrorKind::Truncated);
    }
    let raw = read_u16_le(d, pos);
    let count: usize = if raw >= 0x8000 {
        0
    } else {
        raw as usize
    };
    if 4 * count > d_len - (pos + 4) {
        return Err(ErrorKind::Truncated);
    }
    Ok(pos + 4 + 4 * count)
}

/// One frame's block header: how many chunks follow and how many payload
/// bytes to buffer before dispatching them.
#[derive(Clone, Copy, Debug, PartialEq, Eq, Structural)]
pub struct HeaderFlaBlock {
    pub block_len: u8,
    pub next_frame_offset: u32,
}

/// The block header encoded at `pos`: a count byte plus one alignment byte,
/// then a 32-bit length.
pub open spec fn spec_parse_block_header(d: Seq<u8>, pos: int) -> Result<
    HeaderFlaBlock,
    ErrorKind,
> {
    if pos + 6 > d.len() {
        Err(ErrorKind::Truncated)
    } else {
        Ok(HeaderFlaBlock { block_len: d[pos], next_frame_offset: le32_at(d, pos + 2) as u32 })
    }
}

/// The kind tag at the head of every chunk inside a frame payload.
#[derive(Clone, Copy, Debug, PartialEq, Eq, Structural)]
pub enum FlaTypeEnum {
    /// Overwrite a palette range and mark it for commit.
    Palette,
    /// An info code: cue audio, fade to black, first frame, music fade.
    Info,
    /// Sample playback metadata; parsed, not acted on.
    Sample,
    /// Sample balance metadata; parsed, not acted on.
    SampleBalance,
    /// Sample stop metadata; parsed, not acted on.
    SampleStop,
    /// Sparse delta run-length framebuffer update.
    Lc,
    /// Clear the framebuffer to color 0.
    Black,
    /// Row run-length full repaint.
    Brown,
    /// Verbatim full-frame overwrite.
    Copy,
}

/// The chunk kind encoded by a kind byte, if any.
pub open spec fn spec_fla_type_from_u8(byte: int) -> Option<FlaTypeEnum> {
    if byte == 1 {
        Some(FlaTypeEnum::Palette)
    } else if byte == 2 {
        Some(FlaTypeEnum::Info)
    } else if byte == 3 {
        Some(FlaTypeEnum::Sample)
    } else if byte == 4 {
        Some(FlaTypeEnum::SampleBalance)
    } else if byte == 5 {
        Some(FlaTypeEnum::SampleStop)
    } else if byte == 6 {
        Some(FlaTypeEnum::Lc)
    } else if byte == 7 {
        Some(FlaTypeEnum::Black)
    } else if byte == 8 {
        Some(FlaTypeEnum::Brown)
    } else if byte == 9 || byte == 16 {
        Some(FlaTypeEnum::Copy)
    } else {
        None
    }
}

impl FlaTypeEnum {
    /// Decodes a chunk kind byte; an unrecognized tag yields `None` and is a
    /// hard format error for the chunk walker.
    pub fn from_u8(byte: u8) -> (r: Option<FlaTypeEnum>)
        ensures
            r == spec_fla_type_from_u8(byte as int),
    {
        match byte {
            1 => Some(FlaTypeEnum::Palette),
            2 => Some(FlaTypeEnum::Info),
            3 => Some(FlaTypeEnum::Sample),
            4 => Some(FlaTypeEnum::SampleBalance),
            5 => Some(FlaTypeEnum::SampleStop),
            6 => Some(FlaTypeEnum::Lc),
            7 => Some(FlaTypeEnum::Black),
            8 => Some(FlaTypeEnum::Brown),
            9 | 16 => Some(FlaTypeEnum::Copy),
            _ => None,
        }
    }
}

impl Default for FlaTypeEnum {
    fn default() -> (r: FlaTypeEnum)
        ensures
            r == FlaTypeEnum::Palette,
    {
        FlaTypeEnum::Palette
    }
}

/// The decoder state one frame's chunks thread through: the framebuffer, the
/// working palette, the pending palette-commit range, the first-frame flag,
/// and the fade-to-black effects requested so far (each with the palette as
/// it stood at that moment).
pub struct FlaState {
    pub fb: Seq<u8>,
    pub pal: Seq<u8>,
    pub color_start: int,
    pub color_len: int,
    pub flag_first: bool,
    pub fades: Seq<Seq<u8>>,
}

/// What one chunk starting at `c` of `payload` makes of state `st`. The
/// chunk's data begins 4 bytes past `c`; each kind validates its own bounds,
/// an unrecognized kind or info code is a format error, and any overrun is
/// `Truncated`.
pub open spec fn spec_apply_chunk(
    st: FlaState,
    payload: Seq<u8>,
    c: int,
    resolution_y: int,
) -> Result<FlaState, ErrorKind> {
    let p = c + 4;
    match spec_fla_type_from_u8(payload[c] as int) {
        None => Err(ErrorKind::InvalidFormat),
        Some(kind) => match kind {
            FlaTypeEnum::Palette => {
                if p + 4 > payload.len() {
                    Err(ErrorKind::Truncated)
                } else {
                    let num = le16_at(payload, p);
                    let start = le16_at(payload, p + 2);
                    if p + 4 + num * 3 > payload.len() {
                        Err(ErrorKind::Truncated)
                    } else if start * 3 + num * 3 > PALETTE_WIDTH {
                        Err(ErrorKind::Truncated)
                    } else {
                        Ok(
                            FlaState {
                                pal: spliced(
                                    st.pal,
                                    start * 3,
                                    payload.subrange(p + 4, p + 4 + num * 3),
                                ),
                                color_start: start,
                                color_len: num,
                                fb: st.fb,
                                flag_first: st.flag_first,
                                fades: st.fades,
                            },
                        )
                    }
                }
            },
            FlaTypeEnum::Info => {
                if p + 2 > payload.len() {
                    Err(ErrorKind::Truncated)
                } else {
                    let code = le16_at(payload, p);
                    if code == 1 || code == 4 {
                        Ok(st)
                    } else if code == 2 {
                        Ok(
                            FlaState {
                                fades: st.fades.push(st.pal),
                                fb: st.fb,
                                pal: st.pal,
                                color_start: st.color_start,
                                color_len: st.color_len,
                                flag_first: st.flag_first,
                            },
                        )
                    } else if code == 3 {
                        Ok(
                            FlaState {
                                flag_first: true,
                                fb: st.fb,
                                pal: st.pal,
                                color_start: st.color_start,
                                color_len: st.color_len,
                                fades: st.fades,
                            },
                        )
                    } else {
                        Err(ErrorKind::InvalidFormat)
                    }
                }
            },
            FlaTypeEnum::Sample => {
                if p + 10 > payload.len() {
                    Err(ErrorKind::Truncated)
                } else {
                    Ok(st)
                }
            },
            FlaTypeEnum::SampleBalance => {
                if p + 7 > payload.len() {
                    Err(ErrorKind::Truncated)
                } else {
                    Ok(st)
                }
            },
            FlaTypeEnum::SampleStop => {
                if p + 2 > payload.len() {
                    Err(ErrorKind::Truncated)
                } else {
                    Ok(st)
                }
            },
            FlaTypeEnum::Lc => {
                match spec_update_frame(
                    st.fb,
                    payload.subrange(p, payload.len() as int),
                    FRAME_WIDTH as int,
                ) {
                    Some(fb2) => Ok(
                        FlaState {
                            fb: fb2,
                            pal: st.pal,
                            color_start: st.color_start,
                            color_len: st.color_len,
                            flag_first: st.flag_first,
                            fades: st.fades,
                        },
                    ),
                    None => Err(ErrorKind::Truncated),
                }
            },
            FlaTypeEnum::Black => {
                if st.fb.len() < FRAME_BYTES {
                    Err(ErrorKind::Truncated)
                } else {
                    Ok(
                        FlaState {
                            fb: filled(st.fb, 0, FRAME_BYTES as int, 0u8),
                            pal: st.pal,
                            color_start: st.color_start,
                            color_len: st.color_len,
                            flag_first: st.flag_first,
                            fades: st.fades,
                        },
                    )
                }
            },
            FlaTypeEnum::Brown => {
                match spec_draw_frame(
                    st.fb,
                    payload.subrange(p, payload.len() as int),
                    FRAME_WIDTH as int,
                    resolution_y,
                ) {
                    Some(fb2) => Ok(
                        FlaState {
                            fb: fb2,
                            pal: st.pal,
                            color_start: st.color_start,
                            color_len: st.color_len,
                            flag_first: st.flag_first,
                            fades: st.fades,
                        },
                    ),
                    None => Err(ErrorKind::Truncated),
                }
            },
            FlaTypeEnum::Copy => {
                if p + FRAME_BYTES > payload.len() {
                    Err(ErrorKind::Truncated)
                } else if st.fb.len() < FRAME_BYTES {
                    Err(ErrorKind::Truncated)
                } else {
                    Ok(
                        FlaState {
                            fb: spliced(st.fb, 0, payload.subrange(p, p + FRAME_BYTES)),
                            pal: st.pal,
                            color_start: st.color_start,
                            color_len: st.color_len,
                            flag_first: st.flag_first,
                            fades: st.fades,
                        },
                    )
                }
            },
        },
    }
}

/// Walks `n` chunks of `payload` from position `c`, applying each to the
/// state. The next chunk always sits exactly `byte_offset_to_next_chunk`
/// past the current chunk's start, whatever the chunk's own decoder
/// consumed.
pub open spec fn spec_chunks(
    st: FlaState,
    payload: Seq<u8>,
    c: int,
    n: int,
    resolution_y: int,
) -> Result<FlaState, ErrorKind>
    decreases n,
{
    if n <= 0 {
        Ok(st)
    } else if !(0 <= c && c + 4 <= payload.len()) {
        Err(ErrorKind::Truncated)
    } else {
        match spec_apply_chunk(st, payload, c, resolution_y) {
            Err(e) => Err(e),
            Ok(st2) => spec_chunks(st2, payload, c + le16_at(payload, c + 2), n - 1, resolution_y),
        }
    }
}

/// Chunk traversal advances by exactly the chunk's declared
/// `byte_offset_to_next_chunk`, relative to the chunk's own start,
/// regardless of how many bytes the chunk's own decoder consumed.
pub proof fn lemma_chunk_advance(
    st: FlaState,
    payload: Seq<u8>,
    c: int,
    n: int,
    resolution_y: int,
    st2: FlaState,
)
    requires
        n > 0,
        0 <= c,
        c + 4 <= payload.len(),
        spec_apply_chunk(st, payload, c, resolution_y) == Ok::<FlaState, ErrorKind>(st2),
    ensures
        spec_chunks(st, payload, c, n, resolution_y) == spec_chunks(
            st2,
            payload,
            c + le16_at(payload, c + 2),
            n - 1,
            resolution_y,
        ),
{
}

/// What one frame at `pos` of the animation resource makes of state `st`:
/// its block header, then exactly `next_frame_offset` payload bytes walked
/// as `block_len` chunks. Yields the new state and the next frame's
/// position.
pub open spec fn spec_decode_frame(st: FlaState, d: Seq<u8>, pos: int, resolution_y: int) -> Result<
    (FlaState, int),
    ErrorKind,
> {
    match spec_parse_block_header(d, pos) {
        Err(e) => Err(e),
        Ok(bh) => {
            if pos + 6 + bh.next_frame_offset > d.len() {
                Err(ErrorKind::Truncated)
            } else {
                match spec_chunks(
                    st,
                    d.subrange(pos + 6, pos + 6 + bh.next_frame_offset),
                    0,
                    bh.block_len as int,
                    resolution_y,
                ) {
                    Err(e) => Err(e),
                    Ok(st2) => Ok((st2, pos + 6 + bh.next_frame_offset)),
                }
            }
        },
    }
}

/// ASCII lowercase of one byte.
pub open spec fn lower(c: u8) -> u8 {
    if 0x41 <= c <= 0x5a {
        (c + 0x20) as u8
    } else {
        c
    }
}

/// ASCII lowercase of a byte sequence.
pub open spec fn lower_seq(s: Seq<u8>) -> Seq<u8> {
    s.map_values(|c: u8| lower(c))
}

/// ASCII whitespace, as the lookup table's columns are separated.
pub open spec fn is_space(c: u8) -> bool {
    c == 0x20 || c == 0x09 || c == 0x0a || c == 0x0d || c == 0x0b || c == 0x0c
}

/// Position of the first line feed at or after `i`, or the end of `txt`.
pub open spec fn line_end(txt: Seq<u8>, i: int) -> int
    decreases txt.len() - i,
{
    if i < 0 || i >= txt.len() {
        txt.len() as int
    } else if txt[i] == 0x0a {
        i
    } else {
        line_end(txt, i + 1)
    }
}

/// Position of the first non-whitespace byte in `[k, hi)`, or `hi`.
pub open spec fn skip_ws(txt: Seq<u8>, k: int, hi: int) -> int
    decreases hi - k,
{
    if k < 0 || k >= hi {
        hi
    } else if is_space(txt[k]) {
        skip_ws(txt, k + 1, hi)
    } else {
        k
    }
}

/// Position of the first whitespace byte in `[k, hi)`, or `hi`.
pub open spec fn token_end(txt: Seq<u8>, k: int, hi: int) -> int
    decreases hi - k,
{
    if k < 0 || k >= hi {
        hi
    } else if is_space(txt[k]) {
        k
    } else {
        token_end(txt, k + 1, hi)
    }
}

proof fn lemma_line_end_bounds(txt: Seq<u8>, i: int)
    requires
        0 <= i <= txt.len(),
    ensures
        i <= line_end(txt, i) <= txt.len(),
    decreases txt.len() - i,
{
    if i < txt.len() && txt[i] != 0x0a {
        lemma_line_end_bounds(txt, i + 1);
    }
}

proof fn lemma_skip_ws_bounds(txt: Seq<u8>, k: int, hi: int)
    requires
        0 <= k <= hi,
    ensures
        k <= skip_ws(txt, k, hi) <= hi,
    decreases hi - k,
{
    if k < hi && is_space(txt[k]) {
        lemma_skip_ws_bounds(txt, k + 1, hi);
    }
}

proof fn lemma_skip_ws_nonspace(txt: Seq<u8>, k: int, hi: int)
    requires
        0 <= k <= hi,
        skip_ws(txt, k, hi) < hi,
    ensures
        !is_space(txt[skip_ws(txt, k, hi)]),
    decreases hi - k,
{
    if k < hi && is_space(txt[k]) {
        lemma_skip_ws_nonspace(txt, k + 1, hi);
    }
}

proof fn lemma_token_end_bounds(txt: Seq<u8>, k: int, hi: int)
    requires
        0 <= k <= hi,
    ensures
        k <= token_end(txt, k, hi) <= hi,
    decreases hi - k,
{
    if k < hi && !is_space(txt[k]) {
        lemma_token_end_bounds(txt, k + 1, hi);
    }
}

/// An ASCII decimal digit.
pub open spec fn is_digit(c: u8) -> bool {
    0x30 <= c <= 0x39
}

pub open spec fn all_digits(t: Seq<u8>) -> bool {
    forall|q: int| 0 <= q < t.len() ==> is_digit(#[trigger] t[q])
}

/// The decimal value of a digit string.
pub open spec fn digits_value(t: Seq<u8>) -> int
    decreases t.len(),
{
    if t.len() == 0 {
        0
    } else {
        digits_value(t.drop_last()) * 10 + (t.last() - 0x30)
    }
}

/// What the table's number parser makes of one token: an optional plus sign,
/// then at least one digit, rejecting values that do not fit the machine
/// word. Any other token is skipped, not an error.
pub open spec fn parse_usize_token(t: Seq<u8>) -> Option<usize> {
    let d = if t.len() >= 1 && t[0] == 0x2b {
        t.skip(1)
    } else {
        t
    };
    if d.len() == 0 {
        None
    } else if !all_digits(d) {
        None
    } else if digits_value(d) > usize::MAX {
        None
    } else {
        Some(digits_value(d) as usize)
    }
}

proof fn lemma_digits_value_nonneg(t: Seq<u8>)
    requires
        all_digits(t),
    ensures
        digits_value(t) >= 0,
    decreases t.len(),
{
    if t.len() > 0 {
        assert(all_digits(t.drop_last())) by {
            assert(forall|q: int|
                0 <= q < t.len() - 1 ==> #[trigger] t.drop_last()[q] == t[q]);
        }
        lemma_digits_value_nonneg(t.drop_last());
    }
}

proof fn lemma_digits_value_mono(t: Seq<u8>, k: int)
    requires
        all_digits(t),
        0 <= k <= t.len(),
    ensures
        digits_value(t) >= digits_value(t.take(k)),
    decreases t.len() - k,
{
    if k < t.len() {
        lemma_digits_value_mono(t, k + 1);
        assert(t.take(k + 1).drop_last() =~= t.take(k));
        assert(digits_value(t.take(k + 1)) == digits_value(t.take(k)) * 10 + (t[k] - 0x30));
        assert(all_digits(t.take(k))) by {
            assert(forall|q: int| 0 <= q < k ==> #[trigger] t.take(k)[q] == t[q]);
        }
        lemma_digits_value_nonneg(t.take(k));
    } else {
        assert(t.take(k) =~= t);
    }
}

/// The numbers of the tokens in `[k, hi)`, in order; tokens that do not
/// parse are skipped.
pub open spec fn numbers_from(txt: Seq<u8>, k: int, hi: int) -> Seq<usize>
    decreases hi - k,
    via numbers_from_decreases
{
    if k < 0 || k >= hi {
        Seq::empty()
    } else {
        let s = skip_ws(txt, k, hi);
        if s >= hi {
            Seq::empty()
        } else {
            let e = token_end(txt, s, hi);
            match parse_usize_token(txt.subrange(s, e)) {
                Some(v) => seq![v] + numbers_from(txt, e, hi),
                None => numbers_from(txt, e, hi),
            }
        }
    }
}

#[via_fn]
proof fn numbers_from_decreases(txt: Seq<u8>, k: int, hi: int) {
    if !(k < 0 || k >= hi) {
        lemma_skip_ws_bounds(txt, k, hi);
        let s = skip_ws(txt, k, hi);
        if s < hi {
            lemma_skip_ws_nonspace(txt, k, hi);
            assert(token_end(txt, s, hi) == token_end(txt, s + 1, hi));
            lemma_token_end_bounds(txt, s + 1, hi);
        }
    }
}

/// The line `[lo, hi)` names the animation: its first column equals `name`
/// up to ASCII case.
pub open spec fn line_matches(name: Seq<u8>, txt: Seq<u8>, lo: int, hi: int) -> bool {
    let s = skip_ws(txt, lo, hi);
    let e = token_end(txt, s, hi);
    s < hi && lower_seq(txt.subrange(s, e)) == lower_seq(name)
}

/// The still-image indices the line `[lo, hi)` lists after its name column.
pub open spec fn line_numbers(txt: Seq<u8>, lo: int, hi: int) -> Seq<usize> {
    let s = skip_ws(txt, lo, hi);
    let e = token_end(txt, s, hi);
    numbers_from(txt, e, hi)
}

/// The indices of every line from position `i` on whose name column matches
/// `name`, concatenated in order. Lines end at a line feed; one carriage
/// return before it is not part of the line.
pub open spec fn search_from(name: Seq<u8>, txt: Seq<u8>, i: int) -> Seq<usize>
    decreases txt.len() - i + 1,
    via search_from_decreases
{
    if i < 0 || i >= txt.len() {
        Seq::empty()
    } else {
        let e = line_end(txt, i);
        let e2 = if e > i && txt[e - 1] == 0x0d {
            e - 1
        } else {
            e
        };
        let rest = search_from(name, txt, e + 1);
        if line_matches(name, txt, i, e2) {
            line_numbers(txt, i, e2) + rest
        } else {
            rest
        }
    }
}

#[via_fn]
proof fn search_from_decreases(name: Seq<u8>, txt: Seq<u8>, i: int) {
    if !(i < 0 || i >= txt.len()) {
        lemma_line_end_bounds(txt, i);
    }
}

/// All still-image indices filed under `name` in the lookup table `txt`:
/// every line whose first column equals `name` up to ASCII case contributes
/// its remaining columns that parse as numbers, in order.
pub open spec fn spec_search_fla(name: Seq<u8>, txt: Seq<u8>) -> Seq<usize> {
    search_from(name, txt, 0)
}

fn find_line_end(txt: &[u8], i: usize) -> (r: usize)
    requires
        i <= txt@.len(),
    ensures
        r == line_end(txt@, i as int),
        i <= r <= txt@.len(),
{
    let tlen = txt.len();
    let mut e = i;
    while e < tlen
        invariant
            i <= e <= tlen,
            tlen == txt@.len(),
            line_end(txt@, i as int) == line_end(txt@, e as int),
        decreases tlen - e,
    {
        if txt[e] == 0x0a {
            return e;
        }
        e = e + 1;
    }
    e
}

fn find_skip_ws(txt: &[u8], k: usize, hi: usize) -> (r: usize)
    requires
        k <= hi <= txt@.len(),
    ensures
        r == skip_ws(txt@, k as int, hi as int),
        k <= r <= hi,
{
    let mut s = k;
    while s < hi
        invariant
            k <= s <= hi,
            hi <= txt@.len(),
            skip_ws(txt@, k as int, hi as int) == skip_ws(txt@, s as int, hi as int),
        decreases hi - s,
    {
        let c = txt[s];
        if !(c == 0x20 || c == 0x09 || c == 0x0a || c == 0x0d || c == 0x0b || c == 0x0c) {
            return s;
        }
        s = s + 1;
    }
    s
}

fn find_token_end(txt: &[u8], k: usize, hi: usize) -> (r: usize)
    requires
        k <= hi <= txt@.len(),
    ensures
        r == token_end(txt@, k as int, hi as int),
        k <= r <= hi,
{
    let mut s = k;
    while s < hi
        invariant
            k <= s <= hi,
            hi <= txt@.len(),
            token_end(txt@, k as int, hi as int) == token_end(txt@, s as int, hi as int),
        decreases hi - s,
    {
        let c = txt[s];
        if c == 0x20 || c == 0x09 || c == 0x0a || c == 0x0d || c == 0x0b || c == 0x0c {
            return s;
        }
        s = s + 1;
    }
    s
}

fn token_eq_lower(txt: &[u8], s: usize, e: usize, name: &[u8]) -> (r: bool)
    requires
        s <= e <= txt@.len(),
    ensures
        r == (lower_seq(txt@.subrange(s as int, e as int)) == lower_seq(name@)),
{
    let nlen = name.len();
    if e - s != nlen {
        proof {
            assert(lower_seq(txt@.subrange(s as int, e as int)).len() != lower_seq(name@).len());
        }
        return false;
    }
    let mut q: usize = 0;
    while q < nlen
        invariant
            q <= nlen,
            nlen == name@.len(),
            s + nlen == e,
            e <= txt@.len(),
            forall|j: int| 0 <= j < q ==> lower(txt@[s + j]) == lower(name@[j]),
        decreases nlen - q,
    {
        let a = txt[s + q];
        let b = name[q];
        let la = if 0x41 <= a && a <= 0x5a {
            a + 0x20
        } else {
            a
        };
        let lb = if 0x41 <= b && b <= 0x5a {
            b + 0x20
        } else {
            b
        };
        if la != lb {
            proof {
                assert(lower_seq(txt@.subrange(s as int, e as int))[q as int] == lower(
                    txt@[s + q],
                ));
                assert(lower_seq(name@)[q as int] == lower(name@[q as int]));
            }
            return false;
        }
        q = q + 1;
    }
    proof {
        assert(lower_seq(txt@.subrange(s as int, e as int)) =~= lower_seq(name@)) by {
            assert(forall|j: int|
                0 <= j < nlen ==> lower_seq(txt@.subrange(s as int, e as int))[j] == lower(
                    txt@[s + j],
                ));
            assert(forall|j: int| 0 <= j < nlen ==> lower_seq(name@)[j] == lower(name@[j]));
        }
    }
    true
}

#[verifier::loop_isolation(false)]
fn parse_num_token(txt: &[u8], s: usize, e: usize) -> (r: Option<usize>)
    requires
        s <= e <= txt@.len(),
    ensures
        r == parse_usize_token(txt@.subrange(s as int, e as int)),
{
    let ghost t = txt@.subrange(s as int, e as int);
    proof {
        if e > s {
            assert(t[0] == txt@[s as int]);
        }
    }
    let mut d_lo = s;
    if e > s && txt[s] == 0x2b {
        d_lo = s + 1;
    }
    let ghost d = txt@.subrange(d_lo as int, e as int);
    proof {
        if t.len() >= 1 && t[0] == 0x2b {
            assert(t.skip(1) =~= d);
        } else {
            assert(t =~= d);
        }
    }
    if d_lo == e {
        return None;
    }
    let mut acc: usize = 0;
    let mut q = d_lo;
    while q < e
        invariant
            d_lo <= q <= e,
            e <= txt@.len(),
            d == txt@.subrange(d_lo as int, e as int),
            acc == digits_value(d.take(q - d_lo)),
            all_digits(d.take(q - d_lo)),
        decreases e - q,
    {
        let c = txt[q];
        if c < 0x30 || c > 0x39 {
            proof {
                assert(d[q - d_lo] == txt@[q as int]);
                assert(!all_digits(d));
            }
            return None;
        }
        let dg = (c - 0x30) as usize;
        proof {
            assert(d.take(q - d_lo + 1).drop_last() =~= d.take(q - d_lo));
            assert(d.take(q - d_lo + 1).last() == txt@[q as int]);
        }
        if acc > (usize::MAX - dg) / 10 {
            proof {
                assert(acc * 10 + dg > usize::MAX) by (nonlinear_arith)
                    requires
                        acc > (usize::MAX - dg) / 10,
                        0 <= dg <= 9,
                        acc >= 0,
                        usize::MAX >= 9,
                ;
                if all_digits(d) {
                    lemma_digits_value_mono(d, q - d_lo + 1);
                }
            }
            return None;
        }
        acc = acc * 10 + dg;
        q = q + 1;
    }
    proof {
        assert(d.take(e - d_lo) =~= d);
    }
    Some(acc)
}

/// Looks `name` up in the disk-fallback table `txt`, case-insensitively:
/// every line whose first column is `name` contributes the numbers in its
/// remaining columns, in order.
pub fn search_fla(name: &[u8], txt: &[u8]) -> (r: Vec<usize>)
    ensures
        r@ == spec_search_fla(name@, txt@),
{
    let tlen = txt.len();
    let mut out: Vec<usize> = Vec::new();
    let mut i: usize = 0;
    while i < tlen
        invariant
            i <= tlen,
            tlen == txt@.len(),
            out@ + search_from(name@, txt@, i as int) == spec_search_fla(name@, txt@),
        decreases tlen - i,
    {
        let e = find_line_end(txt, i);
        let e2 = if e > i && txt[e - 1] == 0x0d {
            e - 1
        } else {
            e
        };
        let ghost rest_after_line = search_from(name@, txt@, e as int + 1);
        let s = find_skip_ws(txt, i, e2);
        let te = find_token_end(txt, s, e2);
        if s < e2 && token_eq_lower(txt, s, te, name) {
            assert(line_matches(name@, txt@, i as int, e2 as int));
            proof {
                assert(search_from(name@, txt@, i as int) == line_numbers(txt@, i as int, e2 as int)
                    + rest_after_line);
                assert(line_numbers(txt@, i as int, e2 as int) == numbers_from(
                    txt@,
                    te as int,
                    e2 as int,
                ));
                assert(out@ + (numbers_from(txt@, te as int, e2 as int) + rest_after_line) =~= out@
                    + numbers_from(txt@, te as int, e2 as int) + rest_after_line);
            }
            let mut k = te;
            while k < e2
                invariant
                    k <= e2,
                    e2 <= tlen,
                    tlen == txt@.len(),
                    out@ + numbers_from(txt@, k as int, e2 as int) + rest_after_line
                        == spec_search_fla(name@, txt@),
                decreases e2 - k,
            {
                let s2 = find_skip_ws(txt, k, e2);
                if s2 >= e2 {
                    k = e2;
                } else {
                    let e3 = find_token_end(txt, s2, e2);
                    proof {
                        lemma_skip_ws_nonspace(txt@, k as int, e2 as int);
                        assert(token_end(txt@, s2 as int, e2 as int) == token_end(
                            txt@,
                            s2 as int + 1,
                            e2 as int,
                        ));
                        lemma_token_end_bounds(txt@, s2 as int + 1, e2 as int);
                    }
                    let ghost nums_before = numbers_from(txt@, k as int, e2 as int);
                    let ghost nums_after = numbers_from(txt@, e3 as int, e2 as int);
                    match parse_num_token(txt, s2, e3) {
                        Some(v) => {
                            proof {
                                assert(nums_before == seq![v] + nums_after);
                                assert(out@ + nums_before + rest_after_line == (out@.push(v))
                                    + nums_after + rest_after_line) by {
                                    assert(out@ + (seq![v] + nums_after) =~= (out@.push(v))
                                        + nums_after);
                                    assert(out@ + (seq![v] + nums_after) == out@ + nums_before);
                                }
                            }
                            out.push(v);
                        },
                        None => {
                            assert(nums_before == nums_after);
                        },
                    }
                    k = e3;
                }
            }
            assert(numbers_from(txt@, e2 as int, e2 as int) == Seq::<usize>::empty());
            assert(out@ + Seq::<usize>::empty() =~= out@);
            assert(out@ + rest_after_line == spec_search_fla(name@, txt@)) by {
                assert(out@ + numbers_from(txt@, e2 as int, e2 as int) + rest_after_line
                    == spec_search_fla(name@, txt@));
                assert(out@ + numbers_from(txt@, e2 as int, e2 as int) =~= out@);
            }
        } else {
            assert(!line_matches(name@, txt@, i as int, e2 as int));
        }
        if e == tlen {
            assert(search_from(name@, txt@, e as int + 1) == Seq::<usize>::empty());
            assert(search_from(name@, txt@, tlen as int) == Seq::<usize>::empty());
            i = tlen;
        } else {
            i = e + 1;
        }
    }
    out
}

/// Whether a still-image index from the disk-fallback table is one this
/// engine can present; any other index is a recognized but unsupported
/// resource and aborts the fallback playback.
pub fn check_fallback_index(index: usize) -> (r: Result<(), ErrorKind>)
    ensures
        r == (if index == 200 || index == 201 || index == 202 {
            Ok::<(), ErrorKind>(())
        } else {
            Err::<(), ErrorKind>(ErrorKind::Unsupported)
        }),
{
    match index {
        200 | 201 | 202 => Ok(()),
        _ => Err(ErrorKind::Unsupported),
    }
}

/// The per-animation state the playback driver owns: the working palette,
/// the parsed header, the pending palette-commit range, and the first-frame
/// flag that forces a full palette transition.
#[derive(Debug)]
pub struct Fla {
    /// The animation's working palette.
    pub palette: Palette,
    /// The fixed header parsed at the start of playback.
    pub header: HeaderFla,
    /// First color index touched by palette chunks since the last commit.
    pub color_start: usize,
    /// Number of colors touched since the last commit; 0 means none pending.
    pub color_len: usize,
    /// Forces a full palette transition at the next commit.
    pub flag_first: bool,
}

impl Fla {
    pub open spec fn wf(&self) -> bool {
        self.palette.wf() && self.header.wf()
    }
}

impl Default for Fla {
    /// A blank animation state: black palette, empty header, nothing pending.
    fn default() -> (f: Fla)
        ensures
            f.wf(),
            forall|j: int| 0 <= j < PALETTE_WIDTH ==> f.palette.data@[j] == 0u8,
            f.color_start == 0,
            f.color_len == 0,
            !f.flag_first,
            f.header.num_frames == 0,
    {
        Fla {
            palette: Palette::default(),
            header: HeaderFla::default(),
            color_start: 0,
            color_len: 0,
            flag_first: false,
        }
    }
}

/// Two animation states hold the same values.
pub open spec fn same_fla(a: Fla, b: Fla) -> bool {
    &&& a.palette.data@ == b.palette.data@
    &&& header_unchanged(a.header, b.header)
    &&& a.color_start == b.color_start
    &&& a.color_len == b.color_len
    &&& a.flag_first == b.flag_first
}

/// The working copy one frame's chunks mutate; committed to the playback
/// state only when the whole frame decoded.
struct DecodeCtx {
    fb: Vec<u8>,
    pal: Vec<u8>,
    color_start: usize,
    color_len: usize,
    flag_first: bool,
    fades: Vec<Palette>,
}

impl DecodeCtx {
    spec fn st(&self) -> FlaState {
        FlaState {
            fb: self.fb@,
            pal: self.pal@,
            color_start: self.color_start as int,
            color_len: self.color_len as int,
            flag_first: self.flag_first,
            fades: self.fades@.map_values(|q: Palette| q.data@),
        }
    }
}

/// Applies the chunk starting at `c` of `payload` to the working state.
fn apply_chunk(ctx: &mut DecodeCtx, payload: &[u8], c: usize, resolution_y: u16) -> (r: Result<
    (),
    ErrorKind,
>)
    requires
        c + 4 <= payload@.len(),
        old(ctx).pal@.len() == PALETTE_WIDTH,
        old(ctx).fb@.len() == FRAME_BYTES,
    ensures
        final(ctx).pal@.len() == PALETTE_WIDTH,
        final(ctx).fb@.len() == FRAME_BYTES,
        match r {
            Ok(_) => spec_apply_chunk(old(ctx).st(), payload@, c as int, resolution_y as int)
                == Ok::<FlaState, ErrorKind>(final(ctx).st()),
            Err(e) => spec_apply_chunk(old(ctx).st(), payload@, c as int, resolution_y as int)
                == Err::<FlaState, ErrorKind>(e),
        },
{
    let plen = payload.len();
    let p = c + 4;
    let kind = match FlaTypeEnum::from_u8(payload[c]) {
        Some(k) => k,
        None => {
            return Err(ErrorKind::InvalidFormat);
        },
    };
    match kind {
        FlaTypeEnum::Palette => {
            if plen - p < 4 {
                return Err(ErrorKind::Truncated);
            }
            let num = read_u16_le(payload, p) as usize;
            let start = read_u16_le(payload, p + 2) as usize;
            let nbytes = num * 3;
            if nbytes > plen - (p + 4) {
                return Err(ErrorKind::Truncated);
            }
            if start * 3 > PALETTE_WIDTH || nbytes > PALETTE_WIDTH - start * 3 {
                return Err(ErrorKind::Truncated);
            }
            let ghost pal0 = ctx.pal@;
            copy_into(&mut ctx.pal, start * 3, payload, p + 4, nbytes);
            ctx.color_start = start;
            ctx.color_len = num;
            proof {
                assert(ctx.pal@ =~= spliced(
                    pal0,
                    start as int * 3,
                    payload@.subrange(p as int + 4, p as int + 4 + num as int * 3),
                ));
            }
            Ok(())
        },
        FlaTypeEnum::Info => {
            if plen - p < 2 {
                return Err(ErrorKind::Truncated);
            }
            let code = read_u16_le(payload, p);
            if code == 1 || code == 4 {
                Ok(())
            } else if code == 2 {
                let snapshot = Palette { data: dup_vec(&ctx.pal) };
                let ghost fades0 = ctx.fades@;
                ctx.fades.push(snapshot);
                proof {
                    assert(ctx.fades@.map_values(|q: Palette| q.data@) =~= fades0.map_values(
                        |q: Palette| q.data@,
                    ).push(ctx.pal@));
                }
                Ok(())
            } else if code == 3 {
                ctx.flag_first = true;
                Ok(())
            } else {
                Err(ErrorKind::InvalidFormat)
            }
        },
        FlaTypeEnum::Sample => {
            if plen - p < 10 {
                return Err(ErrorKind::Truncated);
            }
            Ok(())
        },
        FlaTypeEnum::SampleBalance => {
            if plen - p < 7 {
                return Err(ErrorKind::Truncated);
            }
            Ok(())
        },
        FlaTypeEnum::SampleStop => {
            if plen - p < 2 {
                return Err(ErrorKind::Truncated);
            }
            Ok(())
        },
        FlaTypeEnum::Lc => {
            let data = vstd::slice::slice_subrange(payload, p, plen);
            match update_frame(&mut ctx.fb, data, FRAME_WIDTH) {
                Ok(_) => Ok(()),
                Err(e) => Err(e),
            }
        },
        FlaTypeEnum::Black => {
            black_frame(&mut ctx.fb);
            Ok(())
        },
        FlaTypeEnum::Brown => {
            let data = vstd::slice::slice_subrange(payload, p, plen);
            assert(resolution_y as int * FRAME_WIDTH as int <= usize::MAX as int);
            match draw_frame(&mut ctx.fb, data, FRAME_WIDTH, resolution_y as usize) {
                Ok(_) => Ok(()),
                Err(e) => Err(e),
            }
        },
        FlaTypeEnum::Copy => {
            if plen - p < FRAME_BYTES {
                return Err(ErrorKind::Truncated);
            }
            let data = vstd::slice::slice_subrange(payload, p, p + FRAME_BYTES);
            let ghost fb0 = ctx.fb@;
            copy_frame(&mut ctx.fb, data);
            proof {
                assert(data@.take((data@.len() as int / FRAME_WIDTH as int) * FRAME_WIDTH as int)
                    =~= payload@.subrange(p as int, p as int + FRAME_BYTES));
                assert(ctx.fb@ =~= spliced(
                    fb0,
                    0,
                    payload@.subrange(p as int, p as int + FRAME_BYTES),
                ));
            }
            Ok(())
        },
    }
}

/// What one call of [`Playback::tick`] did.
#[derive(Debug)]
pub enum FrameStep {
    /// Playback is over: the frame count is reached, the version tag did not
    /// match, or the cancellation flag was signaled.
    Finished,
    /// One frame was decoded and committed. The caller presents the
    /// framebuffer, after performing these synchronous fade-to-black
    /// effects, each with the palette as it stood when its chunk ran.
    Frame { fades_to_black: Vec<Palette> },
}

/// What the palette-commit step asks of the display collaborator.
#[derive(Clone, Copy, Debug, PartialEq, Eq, Structural)]
pub enum PaletteCommit {
    /// Perform the full palette transition effect (first frame).
    Full,
    /// Push this color range directly, without a fade.
    Range { start: usize, len: usize },
    /// Nothing pending; leave the display palette as it is.
    Keep,
}

/// The playback driver for one animation resource: it owns the resource
/// bytes, the framebuffer and the working palette, and decodes one frame per
/// [`Playback::tick`] in archive order.
///
/// Decoding a frame is atomic: a malformed frame leaves the framebuffer,
/// the palette and the read position exactly as they were.
#[derive(Debug)]
pub struct Playback {
    /// The whole animation resource.
    pub data: Vec<u8>,
    /// Read position of the next frame.
    pub pos: usize,
    /// The animation state: palette, header, pending commit, first-frame flag.
    pub fla: Fla,
    /// The persistent 320 by 200 indexed-color framebuffer.
    pub framebuffer: Vec<u8>,
    /// How many frames have been decoded so far.
    pub frames_done: u32,
    /// Whether the version tag matched and playback has not been ended.
    pub active: bool,
}

impl Playback {
    pub open spec fn wf(&self) -> bool {
        &&& self.fla.wf()
        &&& self.framebuffer@.len() == FRAME_BYTES
        &&& self.pos <= self.data@.len()
    }

    /// The decoder state a frame's chunks start from.
    pub open spec fn chunk_state(&self) -> FlaState {
        FlaState {
            fb: self.framebuffer@,
            pal: self.fla.palette.data@,
            color_start: self.fla.color_start as int,
            color_len: self.fla.color_len as int,
            flag_first: self.fla.flag_first,
            fades: Seq::empty(),
        }
    }

    /// Opens an animation resource: parses the fixed header, skips the
    /// sample preload list, and gates playback on the version tag — a tag
    /// other than "V1.3" is not an error, it makes every tick finish at once
    /// with zero frames decoded.
    pub fn new(data: Vec<u8>) -> (r: Result<Playback, ErrorKind>)
        ensures
            match r {
                Ok(p) => {
                    &&& p.wf()
                    &&& spec_header_ok(data@, 0)
                    &&& header_matches(data@, 0, p.fla.header)
                    &&& spec_sample_list_end(data@, 16) == Ok::<int, ErrorKind>(p.pos as int)
                    &&& p.data@ == data@
                    &&& p.frames_done == 0
                    &&& p.active == spec_version_matches(data@.subrange(0, 4))
                    &&& p.fla.flag_first == p.active
                    &&& p.fla.color_start == 0
                    &&& p.fla.color_len == 0
                    &&& p.framebuffer@ == Seq::new(FRAME_BYTES as nat, |j: int| 0u8)
                    &&& forall|j: int|
                        0 <= j < PALETTE_WIDTH ==> p.fla.palette.data@[j] == 0u8
                },
                Err(e) => {
                    (!spec_header_ok(data@, 0) && e == spec_header_err(data@, 0)) || (
                    spec_header_ok(data@, 0) && spec_sample_list_end(data@, 16) == Err::<
                        int,
                        ErrorKind,
                    >(e))
                },
            },
    {
        let header = match parse_header_fla(data.as_slice(), 0) {
            Ok(h) => h,
            Err(e) => {
                return Err(e);
            },
        };
        let pos = match skip_sample_list(data.as_slice(), 16) {
            Ok(p) => p,
            Err(e) => {
                return Err(e);
            },
        };
        let vm = header.version[0] == 0x56 && header.version[1] == 0x31 && header.version[2]
            == 0x2e && header.version[3] == 0x33;
        proof {
            if vm {
                assert(header.version@ =~= seq![0x56u8, 0x31u8, 0x2eu8, 0x33u8]);
            }
        }
        let framebuffer = zero_vec(FRAME_BYTES);
        proof {
            assert(framebuffer@ =~= Seq::new(FRAME_BYTES as nat, |j: int| 0u8));
        }
        Ok(
            Playback {
                data,
                pos,
                fla: Fla {
                    palette: Palette::default(),
                    header,
                    color_start: 0,
                    color_len: 0,
                    flag_first: vm,
                },
                framebuffer,
                frames_done: 0,
                active: vm,
            },
        )
    }

    /// Decodes the next frame, or finishes. A signaled cancellation flag, a
    /// non-matching version tag and an exhausted frame count all finish
    /// playback with nothing decoded and nothing changed; after a signaled
    /// cancellation no further frame is ever decoded. One decoded frame
    /// advances the read position by exactly the block header's
    /// `next_frame_offset` plus its own 6 bytes.
    #[verifier::loop_isolation(false)]
    pub fn tick(&mut self, cancelled: bool) -> (r: Result<FrameStep, ErrorKind>)
        requires
            old(self).wf(),
        ensures
            final(self).wf(),
            final(self).data@ == old(self).data@,
            header_unchanged(final(self).fla.header, old(self).fla.header),
            ({
                let idle = cancelled || !old(self).active || old(self).frames_done >= old(
                    self,
                ).fla.header.num_frames;
                &&& (idle ==> {
                    &&& r matches Ok(s) && s is Finished
                    &&& !final(self).active
                    &&& final(self).frames_done == old(self).frames_done
                    &&& final(self).pos == old(self).pos
                    &&& final(self).framebuffer@ == old(self).framebuffer@
                    &&& same_fla(final(self).fla, old(self).fla)
                })
                &&& (!idle ==> {
                    &&& final(self).active == old(self).active
                    &&& match spec_decode_frame(
                        old(self).chunk_state(),
                        old(self).data@,
                        old(self).pos as int,
                        old(self).fla.header.resolution_y as int,
                    ) {
                        Ok((st2, pos2)) => {
                            &&& r matches Ok(s) && s matches FrameStep::Frame { fades_to_black }
                                && fades_to_black@.map_values(|q: Palette| q.data@) == st2.fades
                            &&& final(self).framebuffer@ == st2.fb
                            &&& final(self).fla.palette.data@ == st2.pal
                            &&& final(self).fla.color_start == st2.color_start
                            &&& final(self).fla.color_len == st2.color_len
                            &&& final(self).fla.flag_first == st2.flag_first
                            &&& final(self).pos == pos2
                            &&& final(self).frames_done == old(self).frames_done + 1
                        },
                        Err(e) => {
                            &&& r == Err::<FrameStep, ErrorKind>(e)
                            &&& final(self).framebuffer@ == old(self).framebuffer@
                            &&& same_fla(final(self).fla, old(self).fla)
                            &&& final(self).pos == old(self).pos
                            &&& final(self).frames_done == old(self).frames_done
                        },
                    }
                })
            }),
    {
        if cancelled || !self.active || self.frames_done >= self.fla.header.num_frames {
            self.active = false;
            return Ok(FrameStep::Finished);
        }
        let d_len = self.data.len();
        if d_len - self.pos < 6 {
            return Err(ErrorKind::Truncated);
        }
        let block_len = self.data[self.pos];
        let off = read_u32_le(self.data.as_slice(), self.pos + 2) as usize;
        let pstart = self.pos + 6;
        if off > d_len - pstart {
            return Err(ErrorKind::Truncated);
        }
        let mut ctx = DecodeCtx {
            fb: dup_vec(&self.framebuffer),
            pal: dup_vec(&self.fla.palette.data),
            color_start: self.fla.color_start,
            color_len: self.fla.color_len,
            flag_first: self.fla.flag_first,
            fades: Vec::new(),
        };
        proof {
            assert(ctx.fades@.map_values(|q: Palette| q.data@) =~= Seq::<Seq<u8>>::empty());
        }
        let payload = vstd::slice::slice_subrange(self.data.as_slice(), pstart, pstart + off);
        let plen = payload.len();
        let resolution_y = self.fla.header.resolution_y;
        let ghost st0 = self.chunk_state();
        let mut c: usize = 0;
        let ghost mut ci: int = 0;
        let mut n: u8 = block_len;
        while n > 0
            invariant
                plen == payload@.len(),
                ctx.pal@.len() == PALETTE_WIDTH,
                ctx.fb@.len() == FRAME_BYTES,
                c <= plen,
                ci <= plen ==> c == ci,
                ci > plen ==> c == plen,
                0 <= ci,
                spec_chunks(st0, payload@, 0, block_len as int, resolution_y as int)
                    == spec_chunks(ctx.st(), payload@, ci, n as int, resolution_y as int),
            decreases n,
        {
            if plen - c < 4 {
                return Err(ErrorKind::Truncated);
            }
            assert(c == ci);
            match apply_chunk(&mut ctx, payload, c, resolution_y) {
                Ok(_) => {},
                Err(e) => {
                    return Err(e);
                },
            }
            let step = read_u16_le(payload, c + 2) as usize;
            proof {
                ci = ci + step;
            }
            if step <= plen - c {
                c = c + step;
            } else {
                c = plen;
            }
            n = n - 1;
        }
        // the whole frame decoded; commit the working state
        let DecodeCtx { fb, pal, color_start, color_len, flag_first, fades } = ctx;
        self.framebuffer = fb;
        self.fla.palette = Palette { data: pal };
        self.fla.color_start = color_start;
        self.fla.color_len = color_len;
        self.fla.flag_first = flag_first;
        self.pos = pstart + off;
        self.frames_done = self.frames_done + 1;
        Ok(FrameStep::Frame { fades_to_black: fades })
    }

    /// The palette-commit step, run after a frame is presented: the first
    /// frame asks for the full palette transition effect, a pending palette
    /// range asks for a direct push of that range, and otherwise the display
    /// palette is left alone. Either way nothing stays pending.
    pub fn palette_commit(&mut self) -> (r: PaletteCommit)
        requires
            old(self).wf(),
        ensures
            final(self).wf(),
            final(self).data@ == old(self).data@,
            final(self).pos == old(self).pos,
            final(self).frames_done == old(self).frames_done,
            final(self).active == old(self).active,
            final(self).framebuffer@ == old(self).framebuffer@,
            final(self).fla.palette.data@ == old(self).fla.palette.data@,
            header_unchanged(final(self).fla.header, old(self).fla.header),
            final(self).fla.color_start == old(self).fla.color_start,
            !final(self).fla.flag_first,
            final(self).fla.color_len == 0,
            r == (if old(self).fla.flag_first {
                PaletteCommit::Full
            } else if old(self).fla.color_len != 0 {
                PaletteCommit::Range {
                    start: old(self).fla.color_start,
                    len: old(self).fla.color_len,
                }
            } else {
                PaletteCommit::Keep
            }),
    {
        if self.fla.flag_first {
            self.fla.flag_first = false;
            self.fla.color_len = 0;
            return PaletteCommit::Full;
        }
        if self.fla.color_len != 0 {
            let start = self.fla.color_start;
            let len = self.fla.color_len;
            self.fla.color_len = 0;
            return PaletteCommit::Range { start, len };
        }
        PaletteCommit::Keep
    }

    /// The pacing budget of one frame in milliseconds, from the declared
    /// cadence. The caller sleeps for whatever is left of it after decode
    /// and presentation, and never for less than nothing.
    pub fn frame_duration_ms(&self) -> (r: u64)
        requires
            self.fla.header.cadence_animation > 0,
        ensures
            r == 1000 as int / self.fla.header.cadence_animation as int,
    {
        1000u64 / (self.fla.header.cadence_animation as u64)
    }
}

} // verus!
