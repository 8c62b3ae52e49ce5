use tuya_meter::crypto::aes_ecb_decrypt_safe;
use tuya_meter::frame::{
    build_55aa, build_6699, has_room_6699, nonce_at, open_6699, parse_55aa, parse_6699, strip_6699,
    ProtoVer, ProtocolError,
};

const KEY: [u8; 16] = *b"0123456789ABCDEF";

fn hex(s: &str) -> Vec<u8> {
    (0..s.len() / 2)
        .map(|i| u8::from_str_radix(&s[2 * i..2 * i + 2], 16).unwrap())
        .collect()
}

#[test]
fn version_33_messages_end_with_a_crc() {
    assert_eq!(
        build_55aa(ProtoVer::V33, 1, 9, b"", &KEY),
        hex("000055aa00000001000000090000000872e818610000aa55")
    );
}

#[test]
fn version_34_messages_end_with_an_hmac() {
    assert_eq!(
        build_55aa(ProtoVer::V34, 1, 9, b"", &KEY),
        hex("000055aa0000000100000009000000249d0d203cb41e3eb468390c36cc4ce7d4c93657a04f4c24489f709da2d54a20e80000aa55")
    );
}

#[test]
fn version_35_messages_are_sealed() {
    let nonce = nonce_at(17126784000);
    assert_eq!(nonce, b"17126784000\0");
    assert_eq!(
        build_6699(1, 16, b"{}", &KEY, &nonce),
        hex("00006699000000000001000000100000001e3137313236373834303030000305d70224160bbc220efe29996c101fb7d100009966")
    );
}

#[test]
fn nonces_have_twelve_bytes() {
    assert_eq!(nonce_at(7), b"7\0\0\0\0\0\0\0\0\0\0\0");
    assert_eq!(nonce_at(1234567890123456), b"123456789012");
}

#[test]
fn a_built_message_reads_back_behind_the_return_code() {
    let msg = build_55aa(ProtoVer::V33, 4, 10, b"abcdefg", &KEY);
    assert_eq!(parse_55aa(ProtoVer::V33, &msg), Ok((10, b"efg".to_vec())));
    let msg = build_55aa(ProtoVer::V34, 4, 10, b"abcdefg", &KEY);
    assert_eq!(parse_55aa(ProtoVer::V34, &msg), Ok((10, b"efg".to_vec())));
    let msg = build_55aa(ProtoVer::V33, 4, 10, b"ab", &KEY);
    assert_eq!(parse_55aa(ProtoVer::V33, &msg), Ok((10, vec![])));
}

#[test]
fn a_sealed_message_opens_again() {
    let msg = build_6699(9, 8, b"\0\0\0\0hello", &KEY, &nonce_at(1));
    assert_eq!(open_6699(&msg, &KEY), Some(b"\0\0\0\0hello".to_vec()));
    assert_eq!(parse_6699(&msg, &KEY), Ok((8, b"hello".to_vec())));
}

#[test]
fn short_55aa_messages_are_refused() {
    assert_eq!(parse_55aa(ProtoVer::V33, &[0; 19]), Err(ProtocolError::TooShort));
    assert_eq!(ProtocolError::TooShort.message(), "message too short");
}

#[test]
fn wrong_55aa_prefixes_are_refused() {
    let e = parse_55aa(ProtoVer::V33, &hex("0000669900000001000000090000000872e818610000aa55"))
        .unwrap_err();
    assert_eq!(e, ProtocolError::BadPrefix(0x6699));
    assert_eq!(e.message(), "bad prefix: 0x6699");
}

#[test]
fn truncated_55aa_messages_are_refused() {
    let msg = build_55aa(ProtoVer::V33, 1, 9, &[0; 40], &KEY);
    let e = parse_55aa(ProtoVer::V33, &msg[..50]).unwrap_err();
    assert_eq!(e, ProtocolError::Truncated { end: 56, len: 50 });
    assert_eq!(e.message(), "truncated: end=56 len=50");
}

#[test]
fn a_length_below_the_trailer_means_no_payload() {
    let mut msg = hex("000055aa0000000100000009000000030000000000000000");
    assert_eq!(parse_55aa(ProtoVer::V33, &msg), Ok((9, vec![])));
    msg[15] = 35;
    assert_eq!(parse_55aa(ProtoVer::V34, &msg), Ok((9, vec![])));
}

#[test]
fn short_6699_messages_are_refused() {
    let e = parse_6699(&[0; 21], &KEY).unwrap_err();
    assert_eq!(e, ProtocolError::GcmTooShort);
    assert_eq!(e.message(), "6699 message too short");
}

#[test]
fn wrong_6699_prefixes_are_refused() {
    let mut msg = build_6699(1, 9, b"", &KEY, &nonce_at(1));
    msg[0] = 0xab;
    let e = parse_6699(&msg, &KEY).unwrap_err();
    assert_eq!(e.message(), "bad prefix: 0xab006699");
}

#[test]
fn truncated_6699_messages_are_refused() {
    let msg = build_6699(1, 9, b"abc", &KEY, &nonce_at(1));
    let e = parse_6699(&msg[..msg.len() - 1], &KEY).unwrap_err();
    assert_eq!(e, ProtocolError::GcmTruncated);
    assert_eq!(e.message(), "6699 message truncated");
}

#[test]
fn forged_6699_messages_are_refused() {
    let mut msg = build_6699(1, 9, b"abc", &KEY, &nonce_at(1));
    msg[31] ^= 1;
    let e = parse_6699(&msg, &KEY).unwrap_err();
    assert_eq!(e, ProtocolError::GcmFailed);
    assert_eq!(e.message(), "GCM decrypt failed: aead::Error");
}

#[test]
fn a_6699_message_needs_room_for_nonce_and_tag() {
    let mut msg = build_6699(1, 9, b"", &KEY, &nonce_at(1));
    assert!(has_room_6699(&msg));
    msg[17] = 27;
    assert!(!has_room_6699(&msg));
    assert!(has_room_6699(&msg[..20]));
}

#[test]
fn version_header_and_return_code_come_off() {
    let mut plain = b"3.5".to_vec();
    plain.extend_from_slice(&[0; 12]);
    plain.extend_from_slice(b"{\"a\":1}");
    assert_eq!(strip_6699(plain.clone()), b"{\"a\":1}");
    plain.truncate(15);
    plain.extend_from_slice(b"\0\0\0\0{}");
    assert_eq!(strip_6699(plain.clone()), b"{}");
    plain.truncate(15);
    plain.extend_from_slice(b"abc");
    assert_eq!(strip_6699(plain), b"abc");
    assert_eq!(strip_6699(b"\0\0\0\0{}".to_vec()), b"{}");
    assert_eq!(strip_6699(b"{\"x\":2}".to_vec()), b"{\"x\":2}");
    assert_eq!(strip_6699(b"abcd".to_vec()), b"abcd");
    assert_eq!(strip_6699(vec![]), b"");
}

#[test]
fn ecb_opens_only_whole_padded_blocks() {
    let sealed = hex("ca43a250b194f633e3d66ed182e46f5fec1de3f6d5e4f9e96a58429d5fe17df002c3ed2eee61a839064e13b0f01f0b35");
    assert_eq!(
        aes_ecb_decrypt_safe(&KEY, &sealed),
        Some(b"{\"dps\":{\"20\":23010,\"18\":158,\"19\":3400}}".to_vec())
    );
    assert_eq!(aes_ecb_decrypt_safe(&KEY, &sealed[..47]), None);
    assert_eq!(aes_ecb_decrypt_safe(&KEY, &[]), None);
    assert_eq!(aes_ecb_decrypt_safe(&KEY, &sealed[..16]), None);
}

fn bitwise_crc(data: &[u8]) -> u32 {
    let mut register = u32::MAX;
    for b in data {
        register ^= *b as u32;
        for _ in 0..8 {
            let out = register & 1;
            register >>= 1;
            if out == 1 {
                register ^= 0xedb88320;
            }
        }
    }
    !register
}

#[test]
fn crcs_of_messages_of_many_lengths() {
    assert_eq!(bitwise_crc(b"123456789"), 0xcbf43926);
    for n in [0, 1, 3, 15, 16, 100, 130, 300, 1000, 2500] {
        let payload: Vec<u8> = (0..n).map(|i: u32| (i * 7 + i / 251) as u8).collect();
        let msg = build_55aa(ProtoVer::V33, n, 9, &payload, &KEY);
        let end = msg.len() - 8;
        assert_eq!(msg[end..end + 4], bitwise_crc(&msg[..end]).to_be_bytes());
    }
}
