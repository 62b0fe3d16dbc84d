use lba_core::error::ErrorKind;
use lba_core::frame::FRAME_BYTES;
use lba_core::frame::black_frame;
use lba_core::frame::copy_frame;
use lba_core::frame::draw_frame;
use lba_core::frame::update_frame;
use lba_core::playfla::FlaTypeEnum;
use lba_core::playfla::FrameStep;
use lba_core::playfla::PaletteCommit;
use lba_core::playfla::Playback;

/// The fixed FLA header plus an empty sample preload list.
fn fla_prefix(version: &[u8; 4], num_frames: u32, cadence: u8, res_y: u16) -> Vec<u8> {
    let mut d = Vec::new();
    d.extend_from_slice(version);
    d.push(0); // NUL terminator
    d.push(0); // alignment
    d.extend_from_slice(&num_frames.to_le_bytes());
    d.push(cadence);
    d.push(0); // alignment
    d.extend_from_slice(&320u16.to_le_bytes()); // resolution x
    d.extend_from_slice(&res_y.to_le_bytes());
    d.extend_from_slice(&0i16.to_le_bytes()); // no samples to preload
    d.extend_from_slice(&0i16.to_le_bytes()); // unused
    d
}

/// One frame: a block header, then the given chunks, each with its header.
fn push_frame(d: &mut Vec<u8>, chunks: &[(u8, Vec<u8>, u16)]) {
    // (kind, data, offset_to_next_chunk); offset 0 means exactly 4 + data
    let mut payload = Vec::new();
    for (kind, data, off) in chunks {
        let off = if *off == 0 { 4 + data.len() as u16 } else { *off };
        payload.push(*kind);
        payload.push(0);
        payload.extend_from_slice(&off.to_le_bytes());
        payload.extend_from_slice(data);
    }
    d.push(chunks.len() as u8);
    d.push(0);
    d.extend_from_slice(&(payload.len() as u32).to_le_bytes());
    d.extend_from_slice(&payload);
}

#[test]
fn version_gate_skips_playback() {
    let d = fla_prefix(b"V1.2", 3, 20, 200);
    let mut p = Playback::new(d).unwrap();
    assert!(!p.active);
    let step = p.tick(false).unwrap();
    assert!(matches!(step, FrameStep::Finished));
    assert_eq!(p.frames_done, 0);
    // ticking again still decodes nothing
    let step = p.tick(false).unwrap();
    assert!(matches!(step, FrameStep::Finished));
    assert_eq!(p.frames_done, 0);
}

#[test]
fn matching_version_plays_declared_frames() {
    let mut d = fla_prefix(b"V1.3", 2, 20, 200);
    push_frame(&mut d, &[(7, vec![], 0)]); // black
    push_frame(&mut d, &[(7, vec![], 0)]);
    let mut p = Playback::new(d).unwrap();
    assert!(p.active);
    assert!(p.fla.flag_first);
    assert!(matches!(p.tick(false).unwrap(), FrameStep::Frame { .. }));
    assert!(matches!(p.tick(false).unwrap(), FrameStep::Frame { .. }));
    assert_eq!(p.frames_done, 2);
    assert!(matches!(p.tick(false).unwrap(), FrameStep::Finished));
    assert_eq!(p.frames_done, 2);
}

#[test]
fn cancellation_stops_before_decoding() {
    let mut d = fla_prefix(b"V1.3", 2, 20, 200);
    push_frame(&mut d, &[(9, vec![0x11; FRAME_BYTES], 0)]);
    push_frame(&mut d, &[(9, vec![0x22; FRAME_BYTES], 0)]);
    let mut p = Playback::new(d).unwrap();
    assert!(matches!(p.tick(false).unwrap(), FrameStep::Frame { .. }));
    assert_eq!(p.frames_done, 1);
    let fb_after_one = p.framebuffer.clone();
    // the check point is signaled after frame 1: frame 2 is never decoded
    assert!(matches!(p.tick(true).unwrap(), FrameStep::Finished));
    assert_eq!(p.frames_done, 1);
    assert_eq!(p.framebuffer, fb_after_one);
    assert!(!p.active);
    assert!(matches!(p.tick(false).unwrap(), FrameStep::Finished));
    assert_eq!(p.frames_done, 1);
}

#[test]
fn copy_chunk_overwrites_frame() {
    let mut d = fla_prefix(b"V1.3", 1, 20, 200);
    let mut pix = vec![0u8; FRAME_BYTES];
    for (i, b) in pix.iter_mut().enumerate() {
        *b = (i % 251) as u8;
    }
    push_frame(&mut d, &[(9, pix.clone(), 0)]);
    let mut p = Playback::new(d).unwrap();
    p.tick(false).unwrap();
    assert_eq!(p.framebuffer, pix);
}

#[test]
fn black_chunk_clears_frame() {
    let mut d = fla_prefix(b"V1.3", 2, 20, 200);
    push_frame(&mut d, &[(9, vec![0x33; FRAME_BYTES], 0)]);
    push_frame(&mut d, &[(7, vec![], 0)]);
    let mut p = Playback::new(d).unwrap();
    p.tick(false).unwrap();
    assert_eq!(p.framebuffer[0], 0x33);
    p.tick(false).unwrap();
    assert_eq!(p.framebuffer, vec![0u8; FRAME_BYTES]);
}

#[test]
fn chunk_offset_is_authoritative_over_consumed_bytes() {
    // the first chunk declares 4 bytes of padding after its data; the
    // second chunk must be found at start + offset, not at start + consumed
    let mut d = fla_prefix(b"V1.3", 1, 20, 200);
    let mut payload = Vec::new();
    payload.push(7u8); // black, consumes nothing
    payload.push(0);
    payload.extend_from_slice(&8u16.to_le_bytes()); // 4 header + 4 padding
    payload.extend_from_slice(&[0xDE, 0xAD, 0xBE, 0xEF]); // padding
    // palette chunk: 1 color at index 0
    payload.push(1u8);
    payload.push(0);
    payload.extend_from_slice(&8u16.to_le_bytes());
    payload.extend_from_slice(&1u16.to_le_bytes()); // num colors
    payload.extend_from_slice(&0u16.to_le_bytes()); // start index
    payload.extend_from_slice(&[10, 20, 30]);
    d.push(2);
    d.push(0);
    d.extend_from_slice(&(payload.len() as u32).to_le_bytes());
    d.extend_from_slice(&payload);
    let mut p = Playback::new(d).unwrap();
    p.tick(false).unwrap();
    assert_eq!(&p.fla.palette.data[0..3], &[10, 20, 30]);
    assert_eq!(p.fla.color_len, 1);
}

#[test]
fn palette_commit_two_tier_policy() {
    let mut d = fla_prefix(b"V1.3", 2, 20, 200);
    // frame 1: palette chunk touching colors 2..4
    let mut pal_data = Vec::new();
    pal_data.extend_from_slice(&2u16.to_le_bytes());
    pal_data.extend_from_slice(&2u16.to_le_bytes());
    pal_data.extend_from_slice(&[1, 2, 3, 4, 5, 6]);
    push_frame(&mut d, &[(1, pal_data.clone(), 0)]);
    push_frame(&mut d, &[(1, pal_data, 0)]);
    let mut p = Playback::new(d).unwrap();
    p.tick(false).unwrap();
    assert_eq!(&p.fla.palette.data[6..12], &[1, 2, 3, 4, 5, 6]);
    // first frame: the full transition wins over the pending range
    assert_eq!(p.palette_commit(), PaletteCommit::Full);
    assert_eq!(p.palette_commit(), PaletteCommit::Keep);
    p.tick(false).unwrap();
    // later frames: just the touched range
    assert_eq!(p.palette_commit(), PaletteCommit::Range { start: 2, len: 2 });
    assert_eq!(p.palette_commit(), PaletteCommit::Keep);
}

#[test]
fn info_fade_to_black_snapshots_palette() {
    let mut d = fla_prefix(b"V1.3", 1, 20, 200);
    // palette chunk paints color 0 white, then info code 2, then another
    // palette chunk paints it grey: the fade must see the white palette
    let mut pal_white = Vec::new();
    pal_white.extend_from_slice(&1u16.to_le_bytes());
    pal_white.extend_from_slice(&0u16.to_le_bytes());
    pal_white.extend_from_slice(&[255, 255, 255]);
    let mut pal_grey = Vec::new();
    pal_grey.extend_from_slice(&1u16.to_le_bytes());
    pal_grey.extend_from_slice(&0u16.to_le_bytes());
    pal_grey.extend_from_slice(&[9, 9, 9]);
    push_frame(
        &mut d,
        &[(1, pal_white, 0), (2, 2i16.to_le_bytes().to_vec(), 0), (1, pal_grey, 0)],
    );
    let mut p = Playback::new(d).unwrap();
    match p.tick(false).unwrap() {
        FrameStep::Frame { fades_to_black } => {
            assert_eq!(fades_to_black.len(), 1);
            assert_eq!(&fades_to_black[0].data[0..3], &[255, 255, 255]);
        },
        FrameStep::Finished => panic!("expected a decoded frame"),
    }
    assert_eq!(&p.fla.palette.data[0..3], &[9, 9, 9]);
}

#[test]
fn info_code_three_forces_full_commit() {
    let mut d = fla_prefix(b"V1.3", 2, 20, 200);
    push_frame(&mut d, &[(7, vec![], 0)]);
    push_frame(&mut d, &[(2, 3i16.to_le_bytes().to_vec(), 0)]);
    let mut p = Playback::new(d).unwrap();
    p.tick(false).unwrap();
    assert_eq!(p.palette_commit(), PaletteCommit::Full); // first frame
    p.tick(false).unwrap();
    assert_eq!(p.palette_commit(), PaletteCommit::Full); // forced by code 3
    assert_eq!(p.palette_commit(), PaletteCommit::Keep);
}

#[test]
fn invalid_info_code_is_format_error() {
    let mut d = fla_prefix(b"V1.3", 1, 20, 200);
    push_frame(&mut d, &[(2, 9i16.to_le_bytes().to_vec(), 0)]);
    let mut p = Playback::new(d).unwrap();
    assert_eq!(p.tick(false).err(), Some(ErrorKind::InvalidFormat));
    assert_eq!(p.frames_done, 0);
}

#[test]
fn unknown_chunk_kind_is_format_error() {
    let mut d = fla_prefix(b"V1.3", 1, 20, 200);
    push_frame(&mut d, &[(42, vec![], 0)]);
    let mut p = Playback::new(d).unwrap();
    assert_eq!(p.tick(false).err(), Some(ErrorKind::InvalidFormat));
}

#[test]
fn malformed_frame_leaves_state_untouched() {
    let mut d = fla_prefix(b"V1.3", 2, 20, 200);
    push_frame(&mut d, &[(9, vec![0x44; FRAME_BYTES], 0)]);
    // a copy chunk without its pixels
    push_frame(&mut d, &[(9, vec![1, 2, 3], 0)]);
    let mut p = Playback::new(d).unwrap();
    p.tick(false).unwrap();
    let fb = p.framebuffer.clone();
    let pos = p.pos;
    assert_eq!(p.tick(false).err(), Some(ErrorKind::Truncated));
    assert_eq!(p.framebuffer, fb);
    assert_eq!(p.pos, pos);
    assert_eq!(p.frames_done, 1);
}

#[test]
fn truncated_version_tag() {
    let d = vec![b'V', b'1'];
    assert_eq!(Playback::new(d).err(), Some(ErrorKind::Truncated));
    let mut bad = fla_prefix(b"V1.3", 1, 20, 200);
    bad[4] = b'x'; // no NUL terminator
    assert_eq!(Playback::new(bad).err(), Some(ErrorKind::InvalidFormat));
}

#[test]
fn frame_duration_from_cadence() {
    let d = fla_prefix(b"V1.3", 0, 20, 200);
    let p = Playback::new(d).unwrap();
    assert_eq!(p.frame_duration_ms(), 50);
}

#[test]
fn fla_type_tags() {
    assert!(matches!(FlaTypeEnum::from_u8(1), Some(FlaTypeEnum::Palette)));
    assert!(matches!(FlaTypeEnum::from_u8(9), Some(FlaTypeEnum::Copy)));
    assert!(matches!(FlaTypeEnum::from_u8(16), Some(FlaTypeEnum::Copy)));
    assert!(FlaTypeEnum::from_u8(0).is_none());
    assert!(FlaTypeEnum::from_u8(17).is_none());
}

#[test]
fn brown_row_literal_block_advances_cursor() {
    // one row, two blocks: copy 2 literal bytes, then fill 2 pixels; the
    // fill lands right after the literals, so the cursor advanced by 2
    let data = vec![2u8, 0xFE, 0x05, 0x06, 0x02, 0x09];
    let mut dest = vec![0u8; 320];
    draw_frame(&mut dest, &data, 320, 1).unwrap();
    assert_eq!(&dest[0..5], &[0x05, 0x06, 0x09, 0x09, 0x00]);
}

#[test]
fn brown_rows_are_independent() {
    // two rows of one fill block each; row 2 starts at the row boundary
    let data = vec![1u8, 0x03, 0xAA, 1u8, 0x02, 0xBB];
    let mut dest = vec![0u8; 640];
    draw_frame(&mut dest, &data, 320, 2).unwrap();
    assert_eq!(&dest[0..3], &[0xAA, 0xAA, 0xAA]);
    assert_eq!(dest[3], 0);
    assert_eq!(&dest[320..322], &[0xBB, 0xBB]);
    assert_eq!(dest[322], 0);
}

#[test]
fn brown_truncated_row_fails() {
    let data = vec![1u8, 0xFE, 0x05]; // promises 2 literals, holds 1
    let mut dest = vec![0u8; 320];
    assert_eq!(draw_frame(&mut dest, &data, 320, 1), Err(ErrorKind::Truncated));
}

#[test]
fn lc_block_skips_then_writes() {
    // delta 1 row, height 1, one row of two blocks: skip 3 then copy 2
    // literals, skip 1 then fill 2
    let mut data = Vec::new();
    data.extend_from_slice(&1u16.to_le_bytes());
    data.extend_from_slice(&1u16.to_le_bytes());
    data.push(2); // blocks in the row
    data.extend_from_slice(&[3, 0x02, 0xAA, 0xBB]); // skip 3, copy 2
    data.extend_from_slice(&[1, 0xFE, 0xCC]); // skip 1, fill 2
    let mut dest = vec![0u8; 640];
    update_frame(&mut dest, &data, 320).unwrap();
    assert_eq!(&dest[320..330], &[0, 0, 0, 0xAA, 0xBB, 0, 0xCC, 0xCC, 0, 0]);
    assert_eq!(&dest[0..320], &vec![0u8; 320][..]);
}

#[test]
fn lc_zero_length_block_consumes_color_byte() {
    let mut data = Vec::new();
    data.extend_from_slice(&0u16.to_le_bytes());
    data.extend_from_slice(&1u16.to_le_bytes());
    data.push(2);
    data.extend_from_slice(&[0, 0x00, 0x55]); // fill of length 0
    data.extend_from_slice(&[2, 0x01, 0x77]); // then copy 1 literal
    let mut dest = vec![0u8; 320];
    update_frame(&mut dest, &data, 320).unwrap();
    assert_eq!(&dest[0..4], &[0, 0, 0x77, 0]);
}

#[test]
fn black_frame_spares_trailing_bytes() {
    let mut dest = vec![0x11u8; FRAME_BYTES + 5];
    black_frame(&mut dest);
    assert_eq!(&dest[0..FRAME_BYTES], &vec![0u8; FRAME_BYTES][..]);
    assert_eq!(&dest[FRAME_BYTES..], &[0x11; 5]);
}

#[test]
fn copy_frame_whole_rows_only() {
    let mut dest = vec![0xEEu8; 700];
    let data = vec![0x42u8; 480]; // one whole row and a partial one
    copy_frame(&mut dest, &data);
    assert_eq!(&dest[0..320], &vec![0x42u8; 320][..]);
    assert_eq!(&dest[320..700], &vec![0xEEu8; 380][..]);
}
