//! Tests for the length-prefixed frame protocol.

use spectra::frame_protocol::{write_frame, FrameError, FrameReader};

#[test]
fn read_write() {
    let mut buffer: Vec<u8> = Vec::new();

    write_frame(&mut buffer, "Hello World").unwrap();
    write_frame(&mut buffer, "Test").unwrap();

    let mut reader = FrameReader::new(buffer);
    let mut out: Vec<String> = Vec::new();
    while let Some(frame) = reader.next() {
        out.push(frame.unwrap());
    }

    assert_eq!(out, &["Hello World".to_string(), "Test".to_string()]);
}

#[test]
fn frame_layout_is_length_prefixed() {
    let mut buffer: Vec<u8> = Vec::new();
    let written = write_frame(&mut buffer, "ab").unwrap();
    assert_eq!(written, 2);
    assert_eq!(buffer, vec![2u8, 0u8, b'a', b'b']);
}

#[test]
fn text_beyond_ascii_survives_a_round_trip() {
    let mut buffer: Vec<u8> = Vec::new();
    write_frame(&mut buffer, "héllo wörld ✓").unwrap();
    let mut reader = FrameReader::new(buffer);
    assert_eq!(reader.next(), Some(Ok("héllo wörld ✓".to_string())));
    assert_eq!(reader.next(), None);
}

#[test]
fn too_long_message_is_rejected() {
    let mut buffer: Vec<u8> = Vec::new();
    let long = "x".repeat(70_000);
    assert_eq!(
        write_frame(&mut buffer, &long),
        Err(FrameError::MessageTooLong)
    );
    assert!(buffer.is_empty());
}

#[test]
fn invalid_utf8_frame_is_reported() {
    let data = vec![2u8, 0u8, 0xFF, 0xFE];
    let mut reader = FrameReader::new(data);
    assert_eq!(reader.next(), Some(Err(FrameError::InvalidUtf8)));
    assert_eq!(reader.next(), None);
}

#[test]
fn truncated_final_frame_is_cut_short() {
    // a declared length of 5 with only 3 bytes present reads what is there
    let data = vec![5u8, 0u8, b'a', b'b', b'c'];
    let mut reader = FrameReader::new(data);
    assert_eq!(reader.next(), Some(Ok("abc".to_string())));
    assert_eq!(reader.next(), None);
}
