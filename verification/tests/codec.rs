use aes_gcm::aead::Aead;
use aes_gcm::{Aes256Gcm, KeyInit, Nonce};
use bytes::BytesMut;
use taskfleet::channel::{next_frame, pull_reply, report_reply, ReplyError, Step};
use taskfleet::codec::{
    decode, encode, encode_with_nonce, make_key, write_frame, DecodeError, HEADER_LEN,
};
use taskfleet::object::Response;

#[test]
fn header_is_twenty_bytes() {
    assert_eq!(HEADER_LEN, 20);
}

#[test]
fn key_is_the_sha256_of_the_secret() {
    let expected: [u8; 32] = [
        0xba, 0x78, 0x16, 0xbf, 0x8f, 0x01, 0xcf, 0xea, 0x41, 0x41, 0x40, 0xde, 0x5d, 0xae, 0x22,
        0x23, 0xb0, 0x03, 0x61, 0xa3, 0x96, 0x17, 0x7a, 0x9c, 0xb4, 0x10, 0xff, 0x61, 0xf2, 0x00,
        0x15, 0xad,
    ];
    assert_eq!(make_key("abc"), expected);
}

#[test]
fn round_trip_returns_the_payload() {
    let key = make_key("secret");
    let mut buf = BytesMut::new();
    assert!(encode(b"hello fleet", &mut buf, &key));
    assert!(buf.len() > HEADER_LEN);
    assert_eq!(&buf[..4], &[0x23, 0x33, 0x23, 0x33]);
    let len = u32::from_be_bytes([buf[4], buf[5], buf[6], buf[7]]) as usize;
    assert_eq!(buf.len(), HEADER_LEN + len);
    let out = decode(&mut buf, &key);
    assert_eq!(out, Ok(b"hello fleet".to_vec()));
    assert_eq!(buf.len(), 0);
}

#[test]
fn round_trip_of_an_empty_payload() {
    let key = make_key("k");
    let mut buf = BytesMut::new();
    assert!(encode(b"", &mut buf, &key));
    assert_eq!(decode(&mut buf, &key), Ok(Vec::new()));
}

#[test]
fn round_trip_of_a_large_payload() {
    let key = make_key("k");
    let payload: Vec<u8> = (0..200_000u32).map(|i| (i % 251) as u8).collect();
    let mut buf = BytesMut::new();
    assert!(encode(&payload, &mut buf, &key));
    assert_eq!(decode(&mut buf, &key), Ok(payload));
    assert_eq!(buf.len(), 0);
}

#[test]
fn two_encodes_differ_and_both_decode() {
    let key = make_key("secret");
    let mut a = BytesMut::new();
    let mut b = BytesMut::new();
    assert!(encode(b"same payload", &mut a, &key));
    assert!(encode(b"same payload", &mut b, &key));
    assert_ne!(&a[..], &b[..]);
    assert_eq!(decode(&mut a, &key), Ok(b"same payload".to_vec()));
    assert_eq!(decode(&mut b, &key), Ok(b"same payload".to_vec()));
}

#[test]
fn the_nonce_stands_in_the_header() {
    let key = make_key("secret");
    let nonce = [7u8; 12];
    let mut buf = BytesMut::new();
    assert!(encode_with_nonce(b"abc", &mut buf, &key, &nonce));
    assert_eq!(&buf[8..20], &nonce);
    let mut again = BytesMut::new();
    assert!(encode_with_nonce(b"abc", &mut again, &key, &nonce));
    assert_eq!(&buf[..], &again[..]);
    assert_eq!(decode(&mut buf, &key), Ok(b"abc".to_vec()));
}

#[test]
fn the_ciphertext_is_not_the_payload() {
    let key = make_key("secret");
    let payload = vec![b'x'; 64];
    let mut buf = BytesMut::new();
    assert!(encode(&payload, &mut buf, &key));
    assert_ne!(&buf[HEADER_LEN..], &payload[..]);
}

#[test]
fn encode_appends_to_what_the_buffer_holds() {
    let key = make_key("secret");
    let mut buf = BytesMut::from(&b"xyz"[..]);
    assert!(encode(b"payload", &mut buf, &key));
    assert_eq!(&buf[..3], b"xyz");
    assert_eq!(&buf[3..7], &[0x23, 0x33, 0x23, 0x33]);
}

#[test]
fn another_key_is_invalid_data() {
    let mut buf = BytesMut::new();
    assert!(encode(b"payload", &mut buf, &make_key("one")));
    let whole = buf.len();
    assert!(whole > 0);
    assert_eq!(decode(&mut buf, &make_key("two")), Err(DecodeError::InvalidData));
    assert_eq!(buf.len(), 0);
}

#[test]
fn frames_decode_in_order() {
    let key = make_key("secret");
    let mut buf = BytesMut::new();
    assert!(encode(b"first", &mut buf, &key));
    assert!(encode(b"second", &mut buf, &key));
    buf.extend_from_slice(b"tail");
    assert_eq!(decode(&mut buf, &key), Ok(b"first".to_vec()));
    assert_eq!(decode(&mut buf, &key), Ok(b"second".to_vec()));
    assert_eq!(&buf[..], b"tail");
    assert_eq!(decode(&mut buf, &key), Err(DecodeError::NotEnoughData));
    assert_eq!(&buf[..], b"tail");
}

#[test]
fn partial_frame_is_not_enough_data() {
    let key = make_key("secret");
    let mut whole = BytesMut::new();
    assert!(encode(b"payload", &mut whole, &key));
    for cut in [0usize, 1, 3, 4, 7, 8, 10, 19, 20, 21, whole.len() - 1] {
        let mut part = BytesMut::from(&whole[..cut]);
        assert_eq!(decode(&mut part, &key), Err(DecodeError::NotEnoughData));
        assert_eq!(&part[..], &whole[..cut]);
    }
}

#[test]
fn a_frame_split_in_two_writes() {
    let key = make_key("secret");
    let mut whole = BytesMut::new();
    assert!(encode(b"split me", &mut whole, &key));
    let mut rx = BytesMut::new();
    rx.extend_from_slice(&whole[..10]);
    assert_eq!(decode(&mut rx, &key), Err(DecodeError::NotEnoughData));
    rx.extend_from_slice(&whole[10..]);
    assert_eq!(decode(&mut rx, &key), Ok(b"split me".to_vec()));
}

#[test]
fn wrong_magic_is_invalid_data() {
    let key = make_key("secret");
    let mut buf = BytesMut::new();
    assert!(encode(b"payload", &mut buf, &key));
    buf[0] = 0x24;
    buf.extend_from_slice(b"rest");
    assert_eq!(decode(&mut buf, &key), Err(DecodeError::InvalidData));
    assert_eq!(&buf[..], b"rest");
}

#[test]
fn a_flipped_bit_is_invalid_data() {
    let key = make_key("secret");
    let mut buf = BytesMut::new();
    assert!(encode(b"payload", &mut buf, &key));
    let last = buf.len() - 1;
    buf[last] ^= 1;
    assert_eq!(decode(&mut buf, &key), Err(DecodeError::InvalidData));
}

#[test]
fn a_sealed_text_that_is_no_zlib_stream_is_invalid_data() {
    let key = make_key("secret");
    let nonce = [1u8; 12];
    let sealed = Aes256Gcm::new((&key).into())
        .encrypt(&Nonce::from(nonce), &b"not compressed"[..])
        .unwrap();
    let mut buf = BytesMut::new();
    assert!(write_frame(&mut buf, &nonce, &sealed));
    assert_eq!(buf.len(), HEADER_LEN + sealed.len());
    assert_eq!(decode(&mut buf, &key), Err(DecodeError::InvalidData));
    assert_eq!(buf.len(), 0);
}

#[test]
fn write_frame_lays_out_the_header() {
    let mut buf = BytesMut::new();
    let nonce = [9u8; 12];
    let sealed = vec![1u8; 300];
    assert!(write_frame(&mut buf, &nonce, &sealed));
    assert_eq!(&buf[..4], &[0x23, 0x33, 0x23, 0x33]);
    assert_eq!(&buf[4..8], &[0, 0, 1, 44]);
    assert_eq!(&buf[8..20], &nonce);
    assert_eq!(&buf[20..], &sealed[..]);
}

#[test]
fn next_frame_waits_for_more_than_a_header() {
    let key = make_key("secret");
    let mut whole = BytesMut::new();
    assert!(encode(b"payload", &mut whole, &key));
    let mut rx = BytesMut::from(&whole[..20]);
    assert_eq!(next_frame(&mut rx, &key), Step::NeedMore);
    assert_eq!(rx.len(), 20);
    rx.extend_from_slice(&whole[20..25]);
    assert_eq!(next_frame(&mut rx, &key), Step::NeedMore);
    rx.extend_from_slice(&whole[25..]);
    assert_eq!(next_frame(&mut rx, &key), Step::Frame(b"payload".to_vec()));
    assert_eq!(next_frame(&mut rx, &key), Step::NeedMore);
}

#[test]
fn next_frame_reports_an_invalid_frame() {
    let mut rx = BytesMut::new();
    assert!(encode(b"payload", &mut rx, &make_key("one")));
    assert_eq!(next_frame(&mut rx, &make_key("two")), Step::Invalid);
}

#[test]
fn pull_reply_wants_an_object() {
    assert_eq!(pull_reply(Response::object(vec![1, 2, 3])), Ok(vec![1, 2, 3]));
    assert_eq!(
        pull_reply(Response::err("Agent not found".to_string())),
        Err(ReplyError::Server("Agent not found".to_string()))
    );
    assert_eq!(pull_reply(Response::ok()), Err(ReplyError::Unexpected));
}

#[test]
fn report_reply_wants_okay() {
    assert!(report_reply(&Response::ok()));
    assert!(!report_reply(&Response::err("no".to_string())));
    assert!(!report_reply(&Response::object(vec![])));
}

#[test]
fn response_carries_its_object() {
    assert_eq!(Response::ok(), Response::Okay);
    assert_eq!(Response::err("e".to_string()), Response::Error("e".to_string()));
    assert_eq!(Response::object(vec![4, 5]).into(), Some(vec![4, 5]));
    assert_eq!(Response::ok().into(), None);
    assert_eq!(Response::err("e".to_string()).into(), None);
}
