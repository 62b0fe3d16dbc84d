use lba_core::lzs::DecodeError;
use lba_core::lzs::decompress_lzs;

#[test]
fn literal_byte() {
    // mask 0x01: bit 0 set, one literal byte
    let r = decompress_lzs(&[0x01, 0x41], 1);
    assert_eq!(r, Ok(vec![0x41]));
}

#[test]
fn run_fill_distance_zero() {
    // literal 0x7F, then token 0x0000: distance 0, length 2 repeats the
    // last output byte twice
    let r = decompress_lzs(&[0x01, 0x7f, 0x00, 0x00], 3);
    assert_eq!(r, Ok(vec![0x7f, 0x7f, 0x7f]));
}

#[test]
fn overlapping_back_reference() {
    // literals 0xAA 0xBB, then distance 1, length 4: the copy overlaps the
    // bytes it writes, repeating the two-byte pattern
    let r = decompress_lzs(&[0x03, 0xaa, 0xbb, 0x12, 0x00], 6);
    assert_eq!(r, Ok(vec![0xaa, 0xbb, 0xaa, 0xbb, 0xaa, 0xbb]));
}

#[test]
fn non_overlapping_back_reference() {
    // literals 1 2 3, then distance 2, length 2 copies bytes 1 and 2
    let r = decompress_lzs(&[0x07, 0x01, 0x02, 0x03, 0x20, 0x00], 5);
    assert_eq!(r, Ok(vec![0x01, 0x02, 0x03, 0x01, 0x02]));
}

#[test]
fn empty_target() {
    let r = decompress_lzs(&[], 0);
    assert_eq!(r, Ok(vec![]));
}

#[test]
fn truncated_source() {
    // mask says literal but the source ends
    let r = decompress_lzs(&[0x01], 1);
    assert_eq!(r, Err(DecodeError::Truncated));
}

#[test]
fn missing_mask_byte() {
    let r = decompress_lzs(&[], 1);
    assert_eq!(r, Err(DecodeError::Truncated));
}

#[test]
fn back_reference_before_start() {
    // token 0x0000 with no prior output reaches before the start
    let r = decompress_lzs(&[0x00, 0x00, 0x00], 2);
    assert_eq!(r, Err(DecodeError::Truncated));
}

#[test]
fn back_reference_past_target() {
    // literal, then a length-2 run when only 1 byte is still owed
    let r = decompress_lzs(&[0x01, 0x7f, 0x00, 0x00], 2);
    assert_eq!(r, Err(DecodeError::Truncated));
}

#[test]
fn second_mask_byte_after_eight_units() {
    // eight literals under mask 0xFF, then a fresh mask for the ninth
    let src = [0xff, 1, 2, 3, 4, 5, 6, 7, 8, 0x01, 9];
    let r = decompress_lzs(&src, 9);
    assert_eq!(r, Ok(vec![1, 2, 3, 4, 5, 6, 7, 8, 9]));
}

#[test]
fn maximum_length_back_reference() {
    // literal 0x55, then distance 0, length 17 (token low nibble 15)
    let r = decompress_lzs(&[0x01, 0x55, 0x0f, 0x00], 18);
    assert_eq!(r, Ok(vec![0x55; 18]));
}
