use lba_core::error::ErrorKind;
use lba_core::hqr::CompressMethod;
use lba_core::hqr::EntryHeader;
use lba_core::hqr::load_hqr;
use lba_core::hqr::load_hqrm;
use lba_core::hqr::load_hqrm_typed;
use lba_core::hqr::lookup;

/// Builds an archive from `(decompressed_size, method, payload)` entries:
/// the table-size field doubles as entry 0's offset.
fn build_archive(entries: &[(u32, u16, Vec<u8>)]) -> Vec<u8> {
    let n = entries.len() as u32;
    let mut offsets = Vec::new();
    let mut off = n * 4;
    for e in entries {
        offsets.push(off);
        off += 10 + e.2.len() as u32;
    }
    let mut out = Vec::new();
    for o in &offsets {
        out.extend_from_slice(&o.to_le_bytes());
    }
    for (i, e) in entries.iter().enumerate() {
        let _ = i;
        out.extend_from_slice(&e.0.to_le_bytes());
        out.extend_from_slice(&(e.2.len() as u32).to_le_bytes());
        out.extend_from_slice(&e.1.to_le_bytes());
        out.extend_from_slice(&e.2);
    }
    out
}

#[test]
fn lookup_returns_written_header() {
    let a = build_archive(&[(5, 0, b"hello".to_vec())]);
    let h = lookup(&a, 0).unwrap();
    assert_eq!(
        h,
        EntryHeader { decompressed_size: 5, compressed_size: 5, method: CompressMethod::Stored }
    );
}

#[test]
fn lookup_out_of_bounds_two_entry_table() {
    // table-size field 8: a two-slot table; any index at or past 2 is out
    let a = build_archive(&[(1, 0, vec![7]), (1, 0, vec![8])]);
    assert_eq!(a[0], 8);
    assert_eq!(lookup(&a, 2), Err(ErrorKind::OutOfBounds));
    assert_eq!(lookup(&a, 1000), Err(ErrorKind::OutOfBounds));
    assert!(lookup(&a, 1).is_ok());
}

#[test]
fn lookup_out_of_bounds_single_entry() {
    // only entry 0 exists; entry 1 is refused before anything is read
    let a = build_archive(&[(3, 0, b"abc".to_vec())]);
    assert_eq!(a[0], 4);
    assert_eq!(lookup(&a, 1), Err(ErrorKind::OutOfBounds));
}

#[test]
fn lookup_empty_archive_truncated() {
    assert_eq!(lookup(&[], 0), Err(ErrorKind::Truncated));
    assert_eq!(lookup(&[8, 0], 0), Err(ErrorKind::Truncated));
}

#[test]
fn lookup_invalid_method() {
    let a = build_archive(&[(1, 2, vec![0])]);
    assert_eq!(lookup(&a, 0), Err(ErrorKind::InvalidFormat));
}

#[test]
fn load_stored_entry() {
    let a = build_archive(&[(5, 0, b"hello".to_vec())]);
    let mut buf = vec![0xEE; 8];
    let n = load_hqr(&a, &mut buf, 0).unwrap();
    assert_eq!(n, 5);
    assert_eq!(&buf, &[b'h', b'e', b'l', b'l', b'o', 0xEE, 0xEE, 0xEE]);
}

#[test]
fn buffer_too_small_leaves_buffer_untouched() {
    let a = build_archive(&[(5, 0, b"hello".to_vec())]);
    let mut buf = vec![0xEE; 4];
    let r = load_hqr(&a, &mut buf, 0);
    assert_eq!(r, Err(ErrorKind::BufferTooSmall));
    assert_eq!(&buf, &[0xEE; 4]);
}

#[test]
fn load_compressed_entry() {
    // LZS payload: mask 0x01 then literal 0x41
    let a = build_archive(&[(1, 1, vec![0x01, 0x41])]);
    let v = load_hqrm(&a, 0).unwrap();
    assert_eq!(v, vec![0x41]);
}

#[test]
fn load_truncated_payload() {
    let mut a = build_archive(&[(5, 0, b"hello".to_vec())]);
    a.truncate(a.len() - 2);
    assert_eq!(load_hqrm(&a, 0), Err(ErrorKind::Truncated));
}

#[test]
fn load_corrupt_compressed_entry() {
    // declared 2 output bytes but the stream holds one literal
    let a = build_archive(&[(2, 1, vec![0x01, 0x41])]);
    assert_eq!(load_hqrm(&a, 0), Err(ErrorKind::Truncated));
}

#[test]
fn second_entry_round_trip() {
    let a = build_archive(&[(1, 0, vec![9]), (3, 0, vec![1, 2, 3])]);
    assert_eq!(load_hqrm(&a, 1).unwrap(), vec![1, 2, 3]);
}

#[test]
fn typed_load_wants_a_whole_palette() {
    let a = build_archive(&[(768, 0, vec![0x2A; 768]), (3, 0, vec![1, 2, 3])]);
    let p = load_hqrm_typed(&a, 0).unwrap();
    assert_eq!(p.data.len(), 768);
    assert_eq!(p.data[767], 0x2A);
    assert_eq!(load_hqrm_typed(&a, 1).err(), Some(ErrorKind::InvalidFormat));
}
