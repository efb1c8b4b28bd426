use chata::frame::{frame_payload, string_to_buffer, vec_to_buffer};

#[test]
fn string_to_buffer_puts_length_then_bytes() {
    let buffer = string_to_buffer(String::from("hi"));
    assert_eq!(buffer[0], 2);
    assert_eq!(buffer[1], b'h');
    assert_eq!(buffer[2], b'i');
    assert!(buffer[3..].iter().all(|b| *b == 0));
}

#[test]
fn string_to_buffer_counts_utf8_bytes() {
    let buffer = string_to_buffer(String::from("ä"));
    assert_eq!(buffer[0], 2);
    assert_eq!(&buffer[1..3], "ä".as_bytes());
}

#[test]
fn vec_to_buffer_frames_bytes() {
    let buffer = vec_to_buffer(&vec![9, 8, 7]);
    assert_eq!(&buffer[0..4], &[3, 9, 8, 7]);
    assert_eq!(buffer[4], 0);
}

#[test]
fn empty_payload_is_all_zero_frame() {
    let buffer = vec_to_buffer(&Vec::new());
    assert!(buffer.iter().all(|b| *b == 0));
    assert_eq!(frame_payload(&buffer), Vec::<u8>::new());
}

#[test]
fn frame_round_trip_longest_payload() {
    let payload: Vec<u8> = (0..255).map(|i| i as u8).collect();
    let buffer = vec_to_buffer(&payload);
    assert_eq!(buffer[0], 255);
    assert_eq!(frame_payload(&buffer), payload);
}

#[test]
fn frame_round_trip_text() {
    let buffer = string_to_buffer(String::from("hello world"));
    assert_eq!(frame_payload(&buffer), b"hello world".to_vec());
}

#[test]
fn payload_follows_length_byte_only() {
    let mut buffer = [7u8; 256];
    buffer[0] = 3;
    assert_eq!(frame_payload(&buffer), vec![7, 7, 7]);
}

