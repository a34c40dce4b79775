use rtain::frame::{decode_frames, encode_frame, frame_length, u64_from_le, u64_to_le, FrameError};
use rtain::{Commands, Msg, PSArgs, CLI};

#[test]
fn test_msg_get_req() {
    let cli = CLI {
        command: Commands::PS(PSArgs { all: false }),
    };
    let msg = Msg::Req(cli.clone());
    assert!(msg.get_req().is_some());

    let ok_msg = Msg::Okay;
    assert!(ok_msg.get_req().is_none());

    let err_msg = Msg::Error("test error".to_string());
    assert!(err_msg.get_req().is_none());
}

#[test]
fn final_messages() {
    assert!(Msg::Okay.is_final());
    assert!(Msg::OkContent("x".to_string()).is_final());
    assert!(Msg::Error("x".to_string()).is_final());
    assert!(!Msg::Continue.is_final());
    assert!(!Msg::Req(CLI { command: Commands::PS(PSArgs { all: true }) }).is_final());
}

#[test]
fn little_endian_numbers() {
    assert_eq!(u64_to_le(0x0102030405060708), vec![8, 7, 6, 5, 4, 3, 2, 1]);
    let b = u64_to_le(1234567890123);
    assert_eq!(u64_from_le(&b, 0), 1234567890123);
    assert_eq!(u64_from_le(&[0xff, 0, 0, 0, 0, 0, 0, 0, 9], 1), 0x0900000000000000);
}

#[test]
fn frame_round_trip() {
    let a = encode_frame(b"hello");
    assert_eq!(a, vec![5, 0, 0, 0, 0, 0, 0, 0, b'h', b'e', b'l', b'l', b'o']);
    let mut data = a.clone();
    data.extend_from_slice(&encode_frame(b""));
    data.extend_from_slice(&encode_frame(b"xy"));
    let ps = decode_frames(&data).unwrap();
    assert_eq!(ps, vec![b"hello".to_vec(), vec![], b"xy".to_vec()]);
    assert_eq!(decode_frames(&[]).unwrap(), Vec::<Vec<u8>>::new());
}

#[test]
fn frame_errors() {
    assert_eq!(decode_frames(&[1, 0, 0]), Err(FrameError::TruncatedLength));
    assert_eq!(decode_frames(&[3, 0, 0, 0, 0, 0, 0, 0, 1]), Err(FrameError::TruncatedPayload));
    assert_eq!(frame_length(&[1, 2], 10), Err(FrameError::TruncatedLength));
    assert_eq!(frame_length(&[11, 0, 0, 0, 0, 0, 0, 0], 10), Err(FrameError::Oversized));
    assert_eq!(frame_length(&[10, 0, 0, 0, 0, 0, 0, 0], 10), Ok(10));
}
