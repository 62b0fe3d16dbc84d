use lba_core::error::ErrorKind;
use lba_core::func::cross_mult_32;
use lba_core::global::Global;
use lba_core::message::Message;
use lba_core::palette::Palette;
use lba_core::playfla::check_fallback_index;
use lba_core::playfla::search_fla;
use lba_core::screen::Screen;
use lba_core::wire::read_u16_le;
use lba_core::wire::read_u32_le;

#[test]
fn le_field_values() {
    let b = [0x34, 0x12, 0x78, 0x56, 0x01];
    assert_eq!(read_u16_le(&b, 0), 0x1234);
    assert_eq!(read_u16_le(&b, 2), 0x5678);
    assert_eq!(read_u32_le(&b, 0), 0x5678_1234);
    assert_eq!(read_u32_le(&b, 1), 0x0156_7812);
}

#[test]
fn cross_mult_interpolates_upward() {
    assert_eq!(cross_mult_32(0, 100, 100, 50), 50);
    assert_eq!(cross_mult_32(0, 255, 100, 0), 0);
    assert_eq!(cross_mult_32(0, 255, 100, 100), 255);
    assert_eq!(cross_mult_32(10, 20, 4, 1), 12);
}

#[test]
fn cross_mult_interpolates_downward_truncating() {
    // (0 - 255) * 50 / 100 truncates toward zero: 255 - 127 = 128
    assert_eq!(cross_mult_32(255, 0, 100, 50), 128);
    assert_eq!(cross_mult_32(255, 255, 100, 70), 255);
    assert_eq!(cross_mult_32(20, 10, 4, 1), 18);
}

#[test]
fn search_fla_is_case_insensitive_and_ordered() {
    let txt = b"INTRO 200 201\nother 202\nintro 203\n";
    assert_eq!(search_fla(b"Intro", txt), vec![200, 201, 203]);
    assert_eq!(search_fla(b"OTHER", txt), vec![202]);
    assert_eq!(search_fla(b"missing", txt), Vec::<usize>::new());
}

#[test]
fn search_fla_skips_tokens_that_are_not_numbers() {
    let txt = b"clip 5 x 7 +9 18446744073709551616\r\nclip 11";
    // the overlong number does not fit a machine word and is skipped
    assert_eq!(search_fla(b"clip", txt), vec![5, 7, 9, 11]);
}

#[test]
fn search_fla_tolerates_blank_lines_and_padding() {
    let txt = b"\n   \n  movie\t42  \r\nmovie2 43\n";
    assert_eq!(search_fla(b"movie", txt), vec![42]);
    assert_eq!(search_fla(b"movie2", txt), vec![43]);
    assert_eq!(search_fla(b"anything", b""), Vec::<usize>::new());
}

#[test]
fn fallback_indices() {
    assert_eq!(check_fallback_index(200), Ok(()));
    assert_eq!(check_fallback_index(201), Ok(()));
    assert_eq!(check_fallback_index(202), Ok(()));
    assert_eq!(check_fallback_index(203), Err(ErrorKind::Unsupported));
    assert_eq!(check_fallback_index(0), Err(ErrorKind::Unsupported));
}

#[test]
fn screen_copy_and_box() {
    let mut a = Screen::default();
    let mut b = Screen::default();
    a.data[7] = 99;
    a.copy_to(&mut b);
    assert_eq!(b.data[7], 99);
    let before = b.data.clone();
    b.draw_box(0, 0, 10, 10, 5);
    assert_eq!(b.data, before);
}

#[test]
fn global_defaults() {
    let g = Global::default();
    assert!(!g.flag_black_pal);
    assert_eq!(g.palette.data.len(), 768);
    assert_eq!(g.buffer_speak.len(), 256 * 1024 + 34);
    assert_eq!(g.master_volume, 0);
    let p = Palette::default();
    assert!(p.data.iter().all(|&c| c == 0));
}

/// An archive whose entry `i` stores `2 + (i % 7)` bytes of value `i`.
fn text_archive(entries: usize) -> Vec<u8> {
    let n = entries as u32;
    let mut payloads = Vec::new();
    for i in 0..entries {
        payloads.push(vec![i as u8; 2 + (i % 7)]);
    }
    let mut offsets = Vec::new();
    let mut off = n * 4;
    for p in &payloads {
        offsets.push(off);
        off += 10 + p.len() as u32;
    }
    let mut out = Vec::new();
    for o in &offsets {
        out.extend_from_slice(&o.to_le_bytes());
    }
    for p in &payloads {
        out.extend_from_slice(&(p.len() as u32).to_le_bytes());
        out.extend_from_slice(&(p.len() as u32).to_le_bytes());
        out.extend_from_slice(&0u16.to_le_bytes());
        out.extend_from_slice(p);
    }
    out
}

#[test]
fn message_loads_order_and_text_tables() {
    let archive = text_archive(40);
    let mut m = Message::new("assets".to_string());
    assert_eq!(m.language, 1);
    m.init_dial(&archive, 0).unwrap();
    // language 1, file 0: order table at entry 14, text table at entry 29
    assert_eq!(m.last_file_init, Some(0));
    assert_eq!(m.max_text, 2 + 14 % 7);
    assert_eq!(m.buffer_order[0], 14);
    assert_eq!(m.buffer_text[0], 29);
}

#[test]
fn message_caches_last_file() {
    let archive = text_archive(40);
    let mut m = Message::new("assets".to_string());
    m.init_dial(&archive, 0).unwrap();
    let order = m.buffer_order.clone();
    // a repeated init for the same file reads nothing, even from an
    // archive that would now fail
    m.init_dial(&[], 0).unwrap();
    assert_eq!(m.buffer_order, order);
    // a different file against the empty archive fails
    assert_eq!(m.init_dial(&[], 1), Err(ErrorKind::Truncated));
    assert_eq!(m.last_file_init, Some(1));
}
