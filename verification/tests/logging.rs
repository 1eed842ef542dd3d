//! Tests for diagnostic log-line formatting.

use elf_loader::logfmt::{format_bytes_line, format_hex_line, nul_terminated};

#[test]
fn hex_line_formats_value() {
    let line = format_hex_line(b"val=", 0x1234ABCD);
    assert_eq!(&line[..], &b"val=0x000000001234ABCD\n\0"[..]);
}

#[test]
fn hex_line_formats_extremes() {
    assert_eq!(&format_hex_line(b"", 0)[..], &b"0x0000000000000000\n\0"[..]);
    assert_eq!(
        &format_hex_line(b"", u64::MAX)[..],
        &b"0xFFFFFFFFFFFFFFFF\n\0"[..]
    );
}

#[test]
fn hex_line_cuts_prefix_at_nul() {
    let line = format_hex_line(b"ab\0cd", 1);
    assert_eq!(&line[..], &b"ab0x0000000000000001\n\0"[..]);
}

#[test]
fn hex_line_caps_prefix_at_sixty_bytes() {
    let prefix = [b'x'; 70];
    let line = format_hex_line(&prefix, 0);
    assert_eq!(line.len(), 60 + 20);
    assert!(line[..60].iter().all(|&b| b == b'x'));
    assert_eq!(&line[60..62], &b"0x"[..]);
}

#[test]
fn bytes_line_formats_groups() {
    let line = format_bytes_line(b"src: ", &[0x00, 0xFF, 0x5A], 16);
    assert_eq!(&line[..], &b"src: 00 FF 5A \n\0"[..]);
}

#[test]
fn bytes_line_respects_max_len() {
    let line = format_bytes_line(b"d: ", &[1, 2, 3, 4, 5], 2);
    assert_eq!(&line[..], &b"d: 01 02 \n\0"[..]);
}

#[test]
fn bytes_line_stops_at_position_cap() {
    // A 40-byte prefix leaves room for 17 three-character groups before the
    // line reaches position 90.
    let prefix = [b'p'; 40];
    let data = [0xABu8; 30];
    let line = format_bytes_line(&prefix, &data, 30);
    assert_eq!(line.len(), 40 + 17 * 3 + 2);
    assert_eq!(&line[40..43], &b"AB "[..]);
    assert_eq!(&line[line.len() - 2..], &b"\n\0"[..]);
}

#[test]
fn nul_terminated_checks_last_byte() {
    assert!(nul_terminated(b"hello\0"));
    assert!(!nul_terminated(b"hello"));
    assert!(!nul_terminated(b""));
    assert!(nul_terminated(b"\0"));
}
