//! Frames on a byte stream.

use bombermanterm::net::protocol::{
    encode_frame, payload_len, read_frame, ClientMessage, FrameError, MAX_FRAME_LEN,
};
use bombermanterm::types::{Action, Direction};

#[test]
fn frame_layout_is_a_little_endian_length_prefix_plus_json() {
    let json = br#"{"Input":"PlaceBomb"}"#;
    let frame = encode_frame(json).expect("encode");

    let len = u32::from_le_bytes(frame[..4].try_into().expect("4 bytes")) as usize;
    assert_eq!(len, frame.len() - 4, "prefix must be the payload length");

    let payload = std::str::from_utf8(&frame[4..]).expect("payload is utf-8 json");
    assert!(
        payload.contains("PlaceBomb"),
        "payload must be readable json: {payload}"
    );
}

#[test]
fn frame_length_is_written_lowest_byte_first() {
    let frame = encode_frame(&vec![7u8; 0x01_02_03]).expect("encode");
    assert_eq!(&frame[..5], &[0x03, 0x02, 0x01, 0x00, 7]);
    assert_eq!(payload_len([0x03, 0x02, 0x01, 0x00]), Ok(0x01_02_03));
    assert_eq!(encode_frame(&[]), Ok(vec![0, 0, 0, 0]));
}

#[test]
fn read_frame_reads_concatenated_frames_in_order() {
    let mut stream = Vec::new();
    for payload in [&b"first"[..], &b"second one"[..]] {
        stream.extend_from_slice(&encode_frame(payload).expect("encode"));
    }

    let (first, after_first) = read_frame(&stream, 0).expect("first frame");
    let (second, after_second) = read_frame(&stream, after_first).expect("second frame");
    assert_eq!(first, b"first");
    assert_eq!(second, b"second one");
    assert_eq!(after_second, stream.len());

    assert_eq!(
        read_frame(&stream, after_second),
        Err(FrameError::Truncated),
        "no third frame"
    );
}

#[test]
fn write_frame_output_can_be_read_back() {
    for payload in [vec![], vec![1], vec![9; 300], vec![0xff; 70_000]] {
        let frame = encode_frame(&payload).expect("encode");
        assert_eq!(read_frame(&frame, 0), Ok((payload, frame.len())));
    }
}

#[test]
fn read_frame_rejects_an_oversized_length_header() {
    let mut stream = ((MAX_FRAME_LEN + 1) as u32).to_le_bytes().to_vec();
    stream.extend_from_slice(b"{}");
    assert_eq!(
        read_frame(&stream, 0),
        Err(FrameError::TooLarge(MAX_FRAME_LEN + 1)),
        "oversized frames must be rejected"
    );
    assert_eq!(payload_len([0xff; 4]), Err(FrameError::TooLarge(0xffff_ffff)));
    assert_eq!(payload_len((MAX_FRAME_LEN as u32).to_le_bytes()), Ok(MAX_FRAME_LEN));
}

#[test]
fn payloads_beyond_the_limit_are_not_framed() {
    let payload = vec![0u8; MAX_FRAME_LEN + 1];
    assert_eq!(encode_frame(&payload), Err(FrameError::TooLarge(MAX_FRAME_LEN + 1)));
    assert!(encode_frame(&payload[1..]).is_ok());
}

#[test]
fn frames_that_are_cut_off_are_not_read() {
    let frame = encode_frame(b"hello").expect("encode");
    for kept in 0..frame.len() {
        assert_eq!(read_frame(&frame[..kept], 0), Err(FrameError::Truncated), "{kept}");
    }
}

#[test]
fn client_messages_with_the_same_input_are_the_same() {
    let left = ClientMessage::Input(Action::Move(Direction::Left));
    assert_eq!(left, ClientMessage::Input(Action::Move(Direction::Left)));
    assert_ne!(left, ClientMessage::Input(Action::PlaceBomb));
}
