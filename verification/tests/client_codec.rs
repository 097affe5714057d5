//! Tests for the client's wire framing and response decoding.

use pueue_core::client::Client;

#[test]
fn frame_has_length_kind_and_payload() {
    let mut client = Client::new(vec![97, 98]);
    let frame = client.send_message().expect("first send yields the frame");
    let mut expected = vec![0u8, 0, 0, 0, 0, 0, 0, 2];
    expected.extend_from_slice(&[0, 0, 0, 0, 0, 0, 0, 1]);
    expected.extend_from_slice(&[97, 98]);
    assert_eq!(frame, expected);
}

#[test]
fn frame_length_is_big_endian() {
    let payload: Vec<u8> = std::iter::repeat(7u8).take(258).collect();
    let mut client = Client::new(payload);
    let frame = client.send_message().unwrap();
    // 258 = 0x0102, big-endian in the last two header bytes of the length.
    assert_eq!(&frame[0..8], &[0, 0, 0, 0, 0, 0, 1, 2]);
    assert_eq!(frame.len(), 16 + 258);
}

#[test]
fn send_message_yields_the_frame_only_once() {
    let mut client = Client::new(vec![1, 2, 3]);
    assert!(client.send_message().is_some());
    assert!(client.send_message().is_none());
}

#[test]
fn valid_utf8_answer_is_stored() {
    let mut client = Client::new(Vec::new());
    assert!(client.receive_answer("done: 2 tasks".as_bytes().to_vec()));
    assert!(client.handle_response());
    assert_eq!(client.response, Some("done: 2 tasks".to_string()));
}

#[test]
fn invalid_utf8_answer_is_rejected() {
    let mut client = Client::new(Vec::new());
    assert!(!client.receive_answer(vec![0xff, 0xfe, 0x01]));
    assert!(!client.handle_response());
    assert_eq!(client.response, None);
}
