use bsb::frame::swap_field_id;
use bsb::{Frame, FrameParser, FrameSerializer, PacketType, ParseErrorKind, ParseResult};

fn create_frame() -> Frame {
    Frame::new(1, 2, 3, 4, [5].to_vec())
}

fn create_serialized() -> &'static [u8] {
    &[220, 2 ^ 0x80, 1, 12, 3, 0, 0, 0, 4, 5, 219, 42]
}

const GET_MESSAGE: [u8; 11] = [220, 194, 0, 11, 6, 61, 5, 25, 240, 36, 62];

#[test]
fn lib_test_parse() {
    let testcase = create_serialized();
    if let ParseResult::Parsed { rest, frame } = Frame::parse(testcase) {
        assert!(rest.is_empty());
        assert_eq!(frame, create_frame());
    } else {
        panic!("not a frame")
    };
}

#[test]
fn lib_test_serialize() {
    let testcase = create_frame();
    let want = create_serialized();
    assert_eq!(testcase.serialize(), want);
}

#[test]
fn lib_test_parse_two_correct_frames() {
    let testcase = vec![create_serialized().to_vec(), create_serialized().to_vec()]
        .into_iter()
        .flatten()
        .collect::<Vec<_>>();
    let want = create_frame();
    let ParseResult::Parsed { rest, frame } = Frame::parse(&testcase) else {
        panic!("not a frame");
    };
    assert!(!rest.is_empty());
    assert_eq!(frame, want);
    let ParseResult::Parsed { rest, frame } = Frame::parse(rest) else {
        panic!("not a frame");
    };
    assert!(rest.is_empty());
    assert_eq!(frame, want);
}

#[test]
fn lib_test_destination_address() {
    assert_eq!(create_frame().destination_address(), 1);
}

#[test]
fn lib_test_source_address() {
    assert_eq!(create_frame().source_address(), 2);
}

#[test]
fn lib_test_packet_type() {
    assert_eq!(create_frame().packet_type(), 3);
}

#[test]
fn lib_test_field_id() {
    assert_eq!(create_frame().field_id(), 4);
}

#[test]
fn lib_test_payload() {
    assert_eq!(create_frame().payload(), [5]);
}

#[test]
fn frame_test_parse() {
    let testcase = create_serialized();
    let ParseResult::Parsed { rest, frame } = Frame::parse(testcase) else {
        panic!("not a frame")
    };
    assert!(rest.is_empty());
    assert_eq!(frame, create_frame());
}

#[test]
fn frame_test_serialize() {
    let testcase = create_frame();
    let want = create_serialized();
    assert_eq!(testcase.serialize(), want);
}

#[test]
fn frame_test_destination_address() {
    assert_eq!(create_frame().destination_address(), 1);
}

#[test]
fn frame_test_source_address() {
    assert_eq!(create_frame().source_address(), 2);
}

#[test]
fn frame_test_packet_type() {
    assert_eq!(create_frame().packet_type(), 3);
}

#[test]
fn frame_test_field_id() {
    assert_eq!(create_frame().field_id(), 4);
}

#[test]
fn frame_test_payload() {
    assert_eq!(create_frame().payload(), [5]);
}

#[test]
fn test_decode() {
    let frame = Frame::new(66, 0, 7, 87890416, vec![0, 0, 15]);
    let testcase = frame.try_decode().unwrap();
    assert_eq!(testcase.value_str(), "1.5");
}

#[test]
fn parser_test_parse_get_message() {
    let data = &[220, 194, 0, 11, 6, 61, 5, 25, 240, 36, 62];
    let want = Frame::new(0, 66, 6, 87890416, vec![]);
    let ParseResult::Parsed { rest, frame } = FrameParser::parse(data) else {
        panic!("not a frame")
    };
    assert_eq!(want, frame);
    assert!(rest.is_empty());
}

#[test]
fn parser_test_parse_ret_message() {
    let data = &[220, 128, 66, 14, 7, 5, 61, 25, 240, 0, 0, 15, 29, 116];
    let want = Frame::new(66, 0, 7, 87890416, vec![0, 0, 15]);
    let ParseResult::Parsed { rest, frame } = Frame::parse(data) else {
        panic!("not a frame")
    };
    assert_eq!(want, frame);
    assert!(rest.is_empty());
}

#[test]
fn parser_test_parse_two_correct_frames() {
    let test_data: &[u8; 11] = &[220, 194, 0, 11, 6, 61, 5, 25, 240, 36, 62];
    let test_frame = Frame::new(0, 66, 6, 87890416, vec![]);
    let testcase = vec![test_data.to_vec(), test_data.to_vec()]
        .into_iter()
        .flatten()
        .collect::<Vec<_>>();
    let want = test_frame;
    let ParseResult::Parsed { rest, frame } = Frame::parse(&testcase) else {
        panic!("not a frame")
    };
    assert!(!rest.is_empty());
    assert_eq!(frame, want);
    let ParseResult::Parsed { rest, frame } = Frame::parse(&testcase) else {
        panic!("not a frame")
    };
    assert!(!rest.is_empty());
    assert_eq!(frame, want);
}

#[test]
fn test_frame_too_short_minimum() {
    let data = &[220, 1, 2, 11, 4, 5, 6, 7, 8, 9];
    assert!(matches!(Frame::parse(data), ParseResult::Incomplete));
}

#[test]
fn test_frame_too_short() {
    let data = &[220, 0, 0, 15, 0, 0, 0, 0, 0, 0, 0, 0, 0, 0];
    assert!(matches!(Frame::parse(data), ParseResult::Incomplete));
}

#[test]
fn test_header_length_invalid_low() {
    let data = &[220, 0, 0, 1, 0, 0, 0, 0, 0, 0, 0, 0, 0, 0];
    let ParseResult::Failure { error, .. } = Frame::parse(data) else {
        panic!("fail")
    };
    assert_eq!(error, ParseErrorKind::InvalidLength);
}

#[test]
fn test_header_length_invalid_high() {
    let data = &[220, 0, 0, 70, 0, 0, 0, 0, 0, 0, 0, 0, 0, 0];
    let ParseResult::Failure { error, .. } = Frame::parse(data) else {
        panic!("fail")
    };
    assert_eq!(error, ParseErrorKind::InvalidLength);
}

#[test]
fn test_no_sof() {
    let data = &[0xBB, 0, 0, 11, 0, 0, 0, 0, 0, 0, 0];
    assert!(matches!(Frame::parse(data), ParseResult::Incomplete));
}

#[test]
fn test_leading_garbage_then_ok() {
    let data = &[0, 1, 2, 3, 220, 194, 0, 11, 6, 61, 5, 25, 240, 36, 62];
    let want = Frame::new(0, 66, 6, 87890416, vec![]);
    let ParseResult::Parsed { rest, frame } = Frame::parse(data) else {
        panic!("fail")
    };
    assert_eq!(want, frame);
    assert!(rest.is_empty());
}

#[test]
fn test_frame_crc_error() {
    let data = &[220, 0, 0, 14, 0, 0, 0, 0, 0, 0, 0, 0, 0, 0];
    let ParseResult::Failure { error, .. } = Frame::parse(data) else {
        panic!("fail")
    };
    assert_eq!(error, ParseErrorKind::ChecksumError);
}

#[test]
fn test_parser_frame_too_short_minimum() {
    let data = &[220, 1, 2, 11, 4, 5, 6, 7, 8, 9];
    assert!(matches!(Frame::parse(data), ParseResult::Incomplete));
}

#[test]
fn test_parse_frame_too_short() {
    let data = &[220, 0, 0, 15, 0, 0, 0, 0, 0, 0, 0, 0, 0, 0];
    assert!(matches!(Frame::parse(data), ParseResult::Incomplete));
}

#[test]
fn test_parse_header_length_invalid_low() {
    let data = &[220, 0, 0, 1, 0, 0, 0, 0, 0, 0, 0, 0, 0, 0];
    let ParseResult::Failure { error, .. } = Frame::parse(data) else {
        panic!("not an error")
    };
    assert_eq!(error, ParseErrorKind::InvalidLength);
}

#[test]
fn test_parse_header_length_invalid_high() {
    let data = &[220, 0, 0, 70, 0, 0, 0, 0, 0, 0, 0, 0, 0, 0];
    let ParseResult::Failure { error, .. } = Frame::parse(data) else {
        panic!("not an error")
    };
    assert_eq!(error, ParseErrorKind::InvalidLength);
}

#[test]
fn test_parse_no_sof() {
    let data = &[0xBB, 0, 0, 11, 0, 0, 0, 0, 0, 0, 0];
    assert!(matches!(Frame::parse(data), ParseResult::Incomplete));
}

#[test]
fn test_parse_leading_garbage_then_ok() {
    let data = &[0, 1, 2, 3, 220, 194, 0, 11, 6, 61, 5, 25, 240, 36, 62];
    let want = Frame::new(0, 66, 6, 87890416, vec![]);
    let ParseResult::Parsed { rest, frame } = Frame::parse(data) else {
        panic!("not a frame")
    };
    assert_eq!(want, frame);
    assert!(rest.is_empty());
}

#[test]
fn test_parse_frame_crc_error() {
    let data = &[220, 0, 0, 14, 0, 0, 0, 0, 0, 0, 0, 0, 0, 0];
    let ParseResult::Failure { error, .. } = Frame::parse(data) else {
        panic!("not an error")
    };
    assert_eq!(error, ParseErrorKind::ChecksumError);
}

#[test]
fn test_frame_serialize() {
    let frame = Frame::new(66, 0, 7, 87890416, vec![0, 0, 15]);
    let testcase = FrameSerializer::serialize(&frame);
    let want = vec![220, 128, 66, 14, 7, 5, 61, 25, 240, 0, 0, 15, 29, 116];
    assert_eq!(want, testcase);
}

#[test]
fn test_frame_serialize_get_request() {
    let frame = Frame::new_get(0, 66, 87890416);
    let testcase = FrameSerializer::serialize(&frame);
    let want = vec![220, 194, 0, 11, 6, 61, 5, 25, 240, 36, 62];
    assert_eq!(want, testcase);
}

#[test]
fn test_frame_serialize_set_request() {
    let frame = Frame::new_set(0, 66, 87884342, vec![1, 0]);
    let testcase = FrameSerializer::serialize(&frame);
    let want = vec![220, 194, 0, 13, 3, 61, 5, 2, 54, 1, 0, 70, 13];
    assert_eq!(want, testcase);
}

#[test]
fn minimal_frame_round_trip() {
    let frame = Frame::new(1, 2, 3, 4, vec![5]);
    let bytes = frame.serialize();
    assert_eq!(
        bytes,
        vec![0xDC, 0x82, 0x01, 0x0C, 0x03, 0x00, 0x00, 0x00, 0x04, 0x05, 0xDB, 0x2A]
    );
    let ParseResult::Parsed { rest, frame: parsed } = Frame::parse(&bytes) else {
        panic!("not a frame")
    };
    assert!(rest.is_empty());
    assert_eq!(parsed, frame);
}

#[test]
fn get_request_swaps_field_id() {
    let frame = Frame::new(0, 66, PacketType::Get.code(), 0x053D19F0, vec![]);
    assert_eq!(frame.serialize(), GET_MESSAGE.to_vec());
}

#[test]
fn round_trip_of_larger_frames() {
    for packet_type in 0u8..=8 {
        let payload: Vec<u8> = (0..58).map(|i| (i * 7 + packet_type as usize) as u8).collect();
        let frame = Frame::new(0x10, 0x7f, packet_type, 0x0102_0304, payload);
        let bytes = frame.serialize();
        assert_eq!(bytes.len(), 69);
        let ParseResult::Parsed { rest, frame: parsed } = Frame::parse(&bytes) else {
            panic!("not a frame")
        };
        assert!(rest.is_empty());
        assert_eq!(parsed, frame);
    }
}

#[test]
fn back_to_back_frames() {
    let mut data = GET_MESSAGE.to_vec();
    data.extend_from_slice(&GET_MESSAGE);
    let ParseResult::Parsed { rest, frame } = Frame::parse(&data) else {
        panic!("not a frame")
    };
    assert_eq!(frame, Frame::new(0, 66, 6, 0x053D19F0, vec![]));
    assert_eq!(rest, &GET_MESSAGE[..]);
    let ParseResult::Parsed { rest, frame } = Frame::parse(rest) else {
        panic!("not a frame")
    };
    assert_eq!(frame, Frame::new(0, 66, 6, 0x053D19F0, vec![]));
    assert!(rest.is_empty());
}

#[test]
fn bad_checksum_and_bad_length() {
    let mut data = GET_MESSAGE.to_vec();
    data[10] ^= 0xff;
    let ParseResult::Failure { rest, broken_data, error } = Frame::parse(&data) else {
        panic!("not an error")
    };
    assert_eq!(error, ParseErrorKind::ChecksumError);
    assert_eq!(broken_data, &data[..]);
    assert_eq!(rest, &data[9..]);
    for len in [1u8, 10, 70, 255] {
        let mut data = GET_MESSAGE.to_vec();
        data[3] = len;
        let ParseResult::Failure { rest, error, .. } = Frame::parse(&data) else {
            panic!("not an error")
        };
        assert_eq!(error, ParseErrorKind::InvalidLength);
        assert_eq!(rest, &data[3..]);
    }
}

#[test]
fn incomplete_prefixes() {
    for n in 0..GET_MESSAGE.len() {
        assert!(matches!(Frame::parse(&GET_MESSAGE[..n]), ParseResult::Incomplete));
    }
    assert!(matches!(Frame::parse(&[]), ParseResult::Incomplete));
}

#[test]
fn swap_twice_is_identity() {
    for id in [0u32, 0x053D19F0, 0x01020304, 0xffff_ffff, 0x8000_0001] {
        assert_eq!(swap_field_id(swap_field_id(id)), id);
    }
    assert_eq!(swap_field_id(0x01020304), 0x02010304);
}

#[test]
fn packet_type_codes() {
    assert_eq!(PacketType::SetRequest.code(), 3);
    assert_eq!(PacketType::Get.code(), 6);
    assert_eq!(PacketType::Ret.code(), 7);
    assert_eq!(PacketType::from_repr(8), Some(PacketType::Error));
    assert_eq!(PacketType::from_repr(9), None);
}

#[test]
fn frame_over_the_length_limit_is_refused() {
    let frame = Frame::new(0, 0, 7, 1, vec![0; 59]);
    let bytes = frame.serialize();
    assert_eq!(bytes.len(), 70);
    assert_eq!(bytes[3], 70);
    let ParseResult::Failure { error, .. } = Frame::parse(&bytes) else {
        panic!("not an error")
    };
    assert_eq!(error, ParseErrorKind::InvalidLength);
}
