//! The FLA frame-encoding algorithms: raw copy, full clear, row run-length
//! ("brown") and sparse delta run-length ("lc") repaints of the persistent
//! indexed-color framebuffer.
//!
//! The run-length encodings read a signed length byte per block. In a brown
//! row a negative length (byte value 128 to 255, magnitude `256 - byte`)
//! means "copy that many literal bytes from the payload" and a non-negative
//! length means "read one color byte and fill that many pixels with it"; an
//! lc block swaps the two signs and prefixes each block with a horizontal
//! skip. A row, block or write that would overrun the payload or the
//! framebuffer is reported as [`ErrorKind::Truncated`].

use vstd::prelude::*;

use crate::error::ErrorKind;
use crate::util::copy_into;
use crate::util::fill_range;
use crate::wire::le16_at;
use crate::wire::read_u16_le;

verus! {

/// Columns of the animation framebuffer.
pub const FRAME_WIDTH: usize = 320;

/// Rows of the animation framebuffer.
pub const FRAME_HEIGHT: usize = 200;

/// Bytes of one full animation frame.
pub const FRAME_BYTES: usize = 320 * 200;

/// `dst` with `bytes` written at position `at`; everything else keeps its
/// value.
pub open spec fn spliced(dst: Seq<u8>, at: int, bytes: Seq<u8>) -> Seq<u8> {
    Seq::new(
        dst.len(),
        |j: int|
            if at <= j < at + bytes.len() {
                bytes[j - at]
            } else {
                dst[j]
            },
    )
}

/// `dst` with `len` copies of `value` written at position `at`; everything
/// else keeps its value.
pub open spec fn filled(dst: Seq<u8>, at: int, len: int, value: u8) -> Seq<u8> {
    Seq::new(
        dst.len(),
        |j: int|
            if at <= j < at + len {
                value
            } else {
                dst[j]
            },
    )
}

/// One brown row's blocks, applied to `fb` from payload position `si` at
/// framebuffer position `di`: `n` blocks, each a signed length byte followed
/// by literal bytes (negative) or one fill color (non-negative). Yields the
/// new framebuffer and the payload position after the row, or `None` when
/// the payload or the framebuffer would be overrun.
pub open spec fn brown_blocks(fb: Seq<u8>, data: Seq<u8>, si: int, di: int, n: int) -> Option<
    (Seq<u8>, int),
>
    decreases n,
{
    if n <= 0 {
        Some((fb, si))
    } else if !(0 <= si < data.len()) {
        None
    } else {
        let flag = data[si];
        if flag >= 0x80 {
            let len = 256 - flag;
            if si + 1 + len <= data.len() && 0 <= di && di + len <= fb.len() {
                brown_blocks(
                    spliced(fb, di, data.subrange(si + 1, si + 1 + len)),
                    data,
                    si + 1 + len,
                    di + len,
                    n - 1,
                )
            } else {
                None
            }
        } else {
            let len = flag as int;
            if si + 2 <= data.len() && 0 <= di && di + len <= fb.len() {
                brown_blocks(filled(fb, di, len, data[si + 1]), data, si + 2, di + len, n - 1)
            } else {
                None
            }
        }
    }
}

/// Brown rows `y` to `height`, each starting at framebuffer position
/// `y * width` with its own block count byte; rows are independent.
pub open spec fn brown_rows(
    fb: Seq<u8>,
    data: Seq<u8>,
    si: int,
    y: int,
    height: int,
    width: int,
) -> Option<Seq<u8>>
    decreases height - y,
{
    if y >= height {
        Some(fb)
    } else if !(0 <= si < data.len()) {
        None
    } else {
        match brown_blocks(fb, data, si + 1, y * width, data[si] as int) {
            None => None,
            Some((fb2, si2)) => brown_rows(fb2, data, si2, y + 1, height, width),
        }
    }
}

/// What a brown (row run-length) chunk makes of framebuffer `fb`.
pub open spec fn spec_draw_frame(fb: Seq<u8>, data: Seq<u8>, width: int, height: int) -> Option<
    Seq<u8>,
> {
    brown_rows(fb, data, 0, 0, height, width)
}

/// One lc row's blocks: each block reads a horizontal skip byte that
/// advances the framebuffer position, then a signed length byte — positive
/// means literal bytes, zero or negative means a fill.
pub open spec fn lc_blocks(fb: Seq<u8>, data: Seq<u8>, si: int, di: int, n: int) -> Option<
    (Seq<u8>, int),
>
    decreases n,
{
    if n <= 0 {
        Some((fb, si))
    } else if !(0 <= si && si + 2 <= data.len()) {
        None
    } else {
        let di2 = di + data[si];
        let flag = data[si + 1];
        if 1 <= flag < 0x80 {
            let len = flag as int;
            if si + 2 + len <= data.len() && 0 <= di2 && di2 + len <= fb.len() {
                lc_blocks(
                    spliced(fb, di2, data.subrange(si + 2, si + 2 + len)),
                    data,
                    si + 2 + len,
                    di2 + len,
                    n - 1,
                )
            } else {
                None
            }
        } else {
            let len = if flag >= 0x80 {
                256 - flag
            } else {
                0
            };
            if si + 3 <= data.len() && 0 <= di2 && di2 + len <= fb.len() {
                lc_blocks(filled(fb, di2, len, data[si + 2]), data, si + 3, di2 + len, n - 1)
            } else {
                None
            }
        }
    }
}

/// Lc rows `y` to `height`, each starting at framebuffer position
/// `delta + y * width` with its own block count byte.
pub open spec fn lc_rows(
    fb: Seq<u8>,
    data: Seq<u8>,
    si: int,
    y: int,
    height: int,
    width: int,
    delta: int,
) -> Option<Seq<u8>>
    decreases height - y,
{
    if y >= height {
        Some(fb)
    } else if !(0 <= si < data.len()) {
        None
    } else {
        match lc_blocks(fb, data, si + 1, delta + y * width, data[si] as int) {
            None => None,
            Some((fb2, si2)) => lc_rows(fb2, data, si2, y + 1, height, width, delta),
        }
    }
}

/// What an lc (delta run-length) chunk makes of framebuffer `fb`: a 16-bit
/// row delta and a 16-bit affected height, then that many sparse rows.
pub open spec fn spec_update_frame(fb: Seq<u8>, data: Seq<u8>, width: int) -> Option<Seq<u8>> {
    if data.len() < 4 {
        None
    } else {
        lc_rows(fb, data, 4, 0, le16_at(data, 2), width, le16_at(data, 0) * width)
    }
}

/// Clears one full frame — the first [`FRAME_BYTES`] bytes of `dest` — to
/// color 0; bytes past the frame keep their value.
pub fn black_frame(dest: &mut Vec<u8>)
    requires
        old(dest)@.len() >= FRAME_BYTES,
    ensures
        final(dest)@ == filled(old(dest)@, 0, FRAME_BYTES as int, 0u8),
{
    fill_range(dest, 0, FRAME_BYTES, 0u8);
    assert(dest@ =~= filled(old(dest)@, 0, FRAME_BYTES as int, 0u8));
}

/// Overwrites `dest` row by row with the whole rows of `data`: every
/// complete [`FRAME_WIDTH`]-byte row of `data` lands at the same position in
/// `dest`; a trailing partial row and everything past the copied rows keep
/// their value.
pub fn copy_frame(dest: &mut Vec<u8>, data: &[u8])
    requires
        (data@.len() as int / FRAME_WIDTH as int) * FRAME_WIDTH as int <= old(dest)@.len(),
    ensures
        final(dest)@ == spliced(
            old(dest)@,
            0,
            data@.take((data@.len() as int / FRAME_WIDTH as int) * FRAME_WIDTH as int),
        ),
{
    let n = (data.len() / FRAME_WIDTH) * FRAME_WIDTH;
    copy_into(dest, 0, data, 0, n);
    assert(dest@ =~= spliced(old(dest)@, 0, data@.take(n as int)));
}

/// Decodes one brown (row run-length) chunk into `dest`: `height` rows of
/// `width` pixels, each row a block count followed by its blocks. On success
/// the framebuffer holds exactly what the chunk describes; on error it may
/// hold the rows already decoded, but keeps its length.
pub fn draw_frame(dest: &mut Vec<u8>, data: &[u8], width: usize, height: usize) -> (r: Result<
    (),
    ErrorKind,
>)
    requires
        height as int * width as int <= usize::MAX as int,
    ensures
        final(dest)@.len() == old(dest)@.len(),
        match r {
            Ok(_) => spec_draw_frame(old(dest)@, data@, width as int, height as int) == Some(
                final(dest)@,
            ),
            Err(e) => spec_draw_frame(old(dest)@, data@, width as int, height as int) is None && e
                == ErrorKind::Truncated,
        },
{
    let dest_len = dest.len();
    let data_len = data.len();
    let mut si: usize = 0;
    let mut y: usize = 0;
    while y < height
        invariant
            y <= height,
            height as int * width as int <= usize::MAX as int,
            dest@.len() == dest_len,
            dest@.len() == old(dest)@.len(),
            data_len == data@.len(),
            si <= data_len,
            spec_draw_frame(old(dest)@, data@, width as int, height as int) == brown_rows(
                dest@,
                data@,
                si as int,
                y as int,
                height as int,
                width as int,
            ),
        decreases height - y,
    {
        if si >= data_len {
            return Err(ErrorKind::Truncated);
        }
        let nb = data[si];
        si = si + 1;
        assert(y * width <= height * width) by (nonlinear_arith)
            requires
                0 <= y < height,
                width >= 0,
        ;
        let mut di: usize = y * width;
        let mut n: u8 = nb;
        while n > 0
            invariant
                height as int * width as int <= usize::MAX as int,
                y < height,
                dest@.len() == dest_len,
                dest@.len() == old(dest)@.len(),
                data_len == data@.len(),
                si <= data_len,
                spec_draw_frame(old(dest)@, data@, width as int, height as int) == (match
                    brown_blocks(dest@, data@, si as int, di as int, n as int) {
                    None => None,
                    Some((fb2, si2)) => brown_rows(
                        fb2,
                        data@,
                        si2,
                        y as int + 1,
                        height as int,
                        width as int,
                    ),
                }),
            decreases n,
        {
            if si >= data_len {
                return Err(ErrorKind::Truncated);
            }
            let flag = data[si];
            if flag >= 0x80 {
                let len: usize = 256 - flag as usize;
                if len > data_len - (si + 1) {
                    return Err(ErrorKind::Truncated);
                }
                if di > dest_len || len > dest_len - di {
                    return Err(ErrorKind::Truncated);
                }
                let ghost pre = dest@;
                copy_into(dest, di, data, si + 1, len);
                proof {
                    assert(dest@ =~= spliced(
                        pre,
                        di as int,
                        data@.subrange(si as int + 1, si as int + 1 + len),
                    ));
                }
                si = si + 1 + len;
                di = di + len;
            } else {
                let len: usize = flag as usize;
                if data_len - si < 2 {
                    return Err(ErrorKind::Truncated);
                }
                if di > dest_len || len > dest_len - di {
                    return Err(ErrorKind::Truncated);
                }
                let color = data[si + 1];
                let ghost pre = dest@;
                fill_range(dest, di, len, color);
                proof {
                    assert(dest@ =~= filled(pre, di as int, len as int, color));
                }
                si = si + 2;
                di = di + len;
            }
            n = n - 1;
        }
        y = y + 1;
    }
    Ok(())
}

/// Decodes one lc (delta run-length) chunk into `dest`: a sparse partial
/// update of `width`-pixel rows starting at the chunk's row delta. On
/// success the framebuffer holds exactly what the chunk describes; on error
/// it may hold the blocks already decoded, but keeps its length.
pub fn update_frame(dest: &mut Vec<u8>, data: &[u8], width: usize) -> (r: Result<(), ErrorKind>)
    requires
        width as int * 0x20000 <= usize::MAX as int,
    ensures
        final(dest)@.len() == old(dest)@.len(),
        match r {
            Ok(_) => spec_update_frame(old(dest)@, data@, width as int) == Some(final(dest)@),
            Err(e) => spec_update_frame(old(dest)@, data@, width as int) is None && e
                == ErrorKind::Truncated,
        },
{
    let dest_len = dest.len();
    let data_len = data.len();
    if data_len < 4 {
        return Err(ErrorKind::Truncated);
    }
    let row_delta = read_u16_le(data, 0);
    assert(row_delta as int * width as int <= usize::MAX as int) by (nonlinear_arith)
        requires
            0 <= row_delta < 0x10000,
            width >= 0,
            width as int * 0x20000 <= usize::MAX as int,
    ;
    let delta: usize = row_delta as usize * width;
    let height: usize = read_u16_le(data, 2) as usize;
    let mut si: usize = 4;
    let mut y: usize = 0;
    while y < height
        invariant
            y <= height,
            height < 0x10000,
            delta == le16_at(data@, 0) * width,
            delta <= usize::MAX,
            width as int * 0x20000 <= usize::MAX as int,
            dest@.len() == dest_len,
            dest@.len() == old(dest)@.len(),
            data_len == data@.len(),
            data_len >= 4,
            si <= data_len,
            spec_update_frame(old(dest)@, data@, width as int) == lc_rows(
                dest@,
                data@,
                si as int,
                y as int,
                height as int,
                width as int,
                delta as int,
            ),
        decreases height - y,
    {
        if si >= data_len {
            return Err(ErrorKind::Truncated);
        }
        let nb = data[si];
        si = si + 1;
        assert(delta + y * width <= usize::MAX) by (nonlinear_arith)
            requires
                0 <= y < height < 0x10000,
                delta == le16_at(data@, 0) * width,
                0 <= le16_at(data@, 0) < 0x10000,
                width as int * 0x20000 <= usize::MAX as int,
                width >= 0,
        ;
        let mut di: usize = delta + y * width;
        let mut n: u8 = nb;
        while n > 0
            invariant
                dest@.len() == dest_len,
                dest@.len() == old(dest)@.len(),
                data_len == data@.len(),
                si <= data_len,
                y < height,
                spec_update_frame(old(dest)@, data@, width as int) == (match lc_blocks(
                    dest@,
                    data@,
                    si as int,
                    di as int,
                    n as int,
                ) {
                    None => None,
                    Some((fb2, si2)) => lc_rows(
                        fb2,
                        data@,
                        si2,
                        y as int + 1,
                        height as int,
                        width as int,
                        delta as int,
                    ),
                }),
            decreases n,
        {
            if data_len - si < 2 {
                return Err(ErrorKind::Truncated);
            }
            let skip = data[si];
            if di > dest_len || skip as usize > dest_len - di {
                // every block, even a zero-length one, must land inside the
                // framebuffer, so a skip past its end already fails
                return Err(ErrorKind::Truncated);
            }
            let di2: usize = di + skip as usize;
            let flag = data[si + 1];
            if 1 <= flag && flag < 0x80 {
                let len: usize = flag as usize;
                if len > data_len - (si + 2) {
                    return Err(ErrorKind::Truncated);
                }
                if len > dest_len - di2 {
                    return Err(ErrorKind::Truncated);
                }
                let ghost pre = dest@;
                copy_into(dest, di2, data, si + 2, len);
                proof {
                    assert(dest@ =~= spliced(
                        pre,
                        di2 as int,
                        data@.subrange(si as int + 2, si as int + 2 + len),
                    ));
                }
                si = si + 2 + len;
                di = di2 + len;
            } else {
                let len: usize = if flag >= 0x80 {
                    256 - flag as usize
                } else {
                    0
                };
                if data_len - si < 3 {
                    return Err(ErrorKind::Truncated);
                }
                if len > dest_len - di2 {
                    return Err(ErrorKind::Truncated);
                }
                let color = data[si + 2];
                let ghost pre = dest@;
                fill_range(dest, di2, len, color);
                proof {
                    assert(dest@ =~= filled(pre, di2 as int, len as int, color));
                }
                si = si + 3;
                di = di2 + len;
            }
            n = n - 1;
        }
        y = y + 1;
    }
    Ok(())
}

} // verus!
