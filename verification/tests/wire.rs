use atm_bank::frame::{
    decode_frame, decode_length, encode_frame, encode_length, end_of_stream, scan_frame,
    FrameStatus, WireError, HEADER_LEN,
};
use atm_bank::message::{Command, Response};

fn all_commands() -> Vec<Command> {
    vec![
        Command::ValidateCardKey { card_key: "key123".to_string() },
        Command::ValidateCardKey { card_key: String::new() },
        Command::Withdraw {
            card_number: "1234567890123456".to_string(),
            pin: "1234".to_string(),
            amount: 1,
        },
        Command::Withdraw { card_number: "x".to_string(), pin: "y".to_string(), amount: 0 },
        Command::Withdraw {
            card_number: "1234567890123456".to_string(),
            pin: "1234".to_string(),
            amount: u64::MAX,
        },
        Command::CheckBalance {
            card_number: "quote\" slash\\ line\n tab\t".to_string(),
            pin: "\u{43f}\u{438}\u{43d}".to_string(),
        },
    ]
}

fn all_responses() -> Vec<Response> {
    vec![
        Response::ValidateCardKeySuccess { card_number: "1234567890123456".to_string() },
        Response::ValidateCardKeyErrorInvalid,
        Response::WithdrawSuccess { new_balance: 0 },
        Response::WithdrawSuccess { new_balance: 1 },
        Response::WithdrawSuccess { new_balance: u64::MAX },
        Response::WithdrawErrorInsufficientFunds,
        Response::CheckBalanceSuccess { amount: 1 },
        Response::CheckBalanceSuccess { amount: u64::MAX },
        Response::ErrorServerInternal,
        Response::ErrorInvalidPin,
        Response::ErrorCardNotFound,
    ]
}

#[test]
fn header_is_four_bytes() {
    assert_eq!(HEADER_LEN, 4);
}

#[test]
fn length_prefix_is_big_endian() {
    assert_eq!(encode_length(0), [0, 0, 0, 0]);
    assert_eq!(encode_length(1), [0, 0, 0, 1]);
    assert_eq!(encode_length(258), [0, 0, 1, 2]);
    assert_eq!(encode_length(0x0102_0304), [1, 2, 3, 4]);
    assert_eq!(encode_length(u32::MAX), [255, 255, 255, 255]);
    assert_eq!(encode_length(0x8000_0000), 0x8000_0000u32.to_be_bytes());
}

#[test]
fn length_prefix_reads_back() {
    assert_eq!(decode_length(&[0, 0, 0, 0]), 0);
    assert_eq!(decode_length(&[0, 0, 1, 2]), 258);
    assert_eq!(decode_length(&[1, 2, 3, 4]), 0x0102_0304);
    assert_eq!(decode_length(&[255, 255, 255, 255]), u32::MAX);
    for len in [0u32, 7, 255, 256, 65_535, 65_536, 16_777_216, u32::MAX - 1] {
        assert_eq!(decode_length(&encode_length(len)), len);
        assert_eq!(u32::from_be_bytes(encode_length(len)), len);
    }
}

#[test]
fn frame_is_prefix_then_body() {
    assert_eq!(encode_frame(b"abc"), Ok(vec![0, 0, 0, 3, b'a', b'b', b'c']));
    assert_eq!(encode_frame(b""), Ok(vec![0, 0, 0, 0]));
    let body = vec![7u8; 300];
    let frame = encode_frame(&body).unwrap();
    assert_eq!(&frame[..4], &[0, 0, 1, 44]);
    assert_eq!(&frame[4..], &body[..]);
}

#[test]
fn frame_reads_back_as_its_body() {
    for body in [&b""[..], &b"x"[..], &b"hello world"[..], &[0u8, 255, 0, 255][..]] {
        let frame = encode_frame(body).unwrap();
        assert_eq!(decode_frame(&frame), Ok(body.to_vec()));
        assert_eq!(
            scan_frame(&frame),
            FrameStatus::Complete { frame_len: 4 + body.len() as u64 }
        );
    }
}

#[test]
fn scan_tells_empty_from_partial_from_complete() {
    assert_eq!(scan_frame(&[]), FrameStatus::Empty);
    assert_eq!(scan_frame(&[0]), FrameStatus::Partial { missing: 3 });
    assert_eq!(scan_frame(&[0, 0, 0]), FrameStatus::Partial { missing: 1 });
    assert_eq!(scan_frame(&[0, 0, 0, 5]), FrameStatus::Partial { missing: 5 });
    assert_eq!(scan_frame(&[0, 0, 0, 5, 1, 2]), FrameStatus::Partial { missing: 3 });
    assert_eq!(scan_frame(&[0, 0, 0, 2, 1, 2]), FrameStatus::Complete { frame_len: 6 });
    assert_eq!(scan_frame(&[0, 0, 0, 2, 1, 2, 9, 9]), FrameStatus::Complete { frame_len: 6 });
    assert_eq!(scan_frame(&[0, 0, 0, 0]), FrameStatus::Complete { frame_len: 4 });
    assert_eq!(
        scan_frame(&[255, 255, 255, 255]),
        FrameStatus::Partial { missing: u32::MAX as u64 }
    );
}

#[test]
fn stream_may_end_between_frames_only() {
    assert_eq!(end_of_stream(&[]), Ok(()));
    assert_eq!(end_of_stream(&[0]), Err(WireError::Incomplete));
    assert_eq!(end_of_stream(&[0, 0, 0, 1]), Err(WireError::Incomplete));
}

#[test]
fn cut_frame_is_incomplete() {
    let frame = encode_frame(b"hello").unwrap();
    for cut in 0..frame.len() {
        assert_eq!(decode_frame(&frame[..cut]), Err(WireError::Incomplete));
    }
}

#[test]
fn bytes_after_a_frame_are_refused() {
    let mut frame = encode_frame(b"hello").unwrap();
    frame.push(0);
    assert_eq!(decode_frame(&frame), Err(WireError::TrailingBytes));
}

#[test]
fn frames_in_a_row_are_found_one_by_one() {
    let first = br#"{"ValidateCardKey":{"card_key":"key123"}}"#;
    let second = br#""ErrorInvalidPin""#;
    let mut stream = encode_frame(first).unwrap();
    assert_eq!(&stream[..4], &[0, 0, 0, 41]);
    stream.extend_from_slice(&encode_frame(second).unwrap());
    assert_eq!(&stream[45..49], &[0, 0, 0, 17]);
    assert_eq!(scan_frame(&stream), FrameStatus::Complete { frame_len: 45 });
    assert_eq!(decode_frame(&stream[..45]), Ok(first.to_vec()));
    assert_eq!(scan_frame(&stream[45..]), FrameStatus::Complete { frame_len: 21 });
    assert_eq!(decode_frame(&stream[45..]), Ok(second.to_vec()));
}

#[test]
fn cloned_messages_equal_what_was_cloned() {
    for command in all_commands() {
        assert_eq!(command.clone(), command);
    }
    for response in all_responses() {
        assert_eq!(response.clone(), response);
    }
}
