use tuya_meter::control::{all_dps, setting_json};
use tuya_meter::crypto::aes_ecb_decrypt_safe;
use tuya_meter::device::{can_frame, strip_header, TuyaDevice};
use tuya_meter::frame::{build_55aa, build_6699, nonce_at, parse_6699, ProtoVer, ProtocolError};
use tuya_meter::json::Json;
use tuya_meter::session::{
    check_reply, derive_session_key, has_session, SessionAction, SessionEvent,
};

const KEY: [u8; 16] = *b"0123456789ABCDEF";
const TICKS: u64 = 17126784000;
const NOW: u64 = 1712678400;

fn hex(s: &str) -> Vec<u8> {
    (0..s.len() / 2)
        .map(|i| u8::from_str_radix(&s[2 * i..2 * i + 2], 16).unwrap())
        .collect()
}

fn device(version: ProtoVer) -> TuyaDevice {
    TuyaDevice::new("dev1", "0123456789ABCDEF", version).unwrap()
}

#[test]
fn keys_have_at_least_sixteen_bytes() {
    let e = TuyaDevice::new("dev1", "0123456789", ProtoVer::V33).unwrap_err();
    assert_eq!(e, ProtocolError::KeyTooShort(10));
    assert_eq!(e.message(), "local_key must be at least 16 bytes, got 10");
    let dev = TuyaDevice::new("dev1", "0123456789ABCDEFGHI", ProtoVer::V34).unwrap();
    assert_eq!(dev.local_key, KEY);
    assert_eq!(dev.session_key, None);
    assert_eq!(dev.enc_key(), &KEY);
    assert_eq!(dev.seqno, 0);
}

#[test]
fn heartbeats_of_each_version() {
    let mut dev = device(ProtoVer::V33);
    assert_eq!(
        dev.heartbeat(TICKS).unwrap(),
        hex("000055aa00000001000000090000000872e818610000aa55")
    );
    assert_eq!(dev.seqno, 1);
    let mut dev = device(ProtoVer::V34);
    assert_eq!(
        dev.heartbeat(TICKS).unwrap(),
        hex("000055aa0000000100000009000000249d0d203cb41e3eb468390c36cc4ce7d4c93657a04f4c24489f709da2d54a20e80000aa55")
    );
    let mut dev = device(ProtoVer::V35);
    assert_eq!(
        dev.heartbeat(TICKS).unwrap(),
        hex("00006699000000000001000000090000001c313731323637383430303000b1498f2c634cbe39a8e2fdecdfb26fdc00009966")
    );
}

#[test]
fn message_numbers_run_out() {
    let mut dev = device(ProtoVer::V33);
    dev.seqno = u32::MAX;
    assert_eq!(dev.heartbeat(TICKS), None);
    assert_eq!(dev.command(10, b"{}", TICKS), None);
    assert_eq!(dev.seqno, u32::MAX);
}

#[test]
fn message_numbers_rise() {
    let mut dev = device(ProtoVer::V33);
    assert_eq!(dev.next_seq(), 1);
    assert_eq!(dev.next_seq(), 2);
    let msg = dev.build_msg_55aa(9, b"", &KEY);
    assert_eq!(&msg[4..8], &[0, 0, 0, 3]);
    let msg = dev.build_msg_6699(9, b"", &KEY, TICKS);
    assert_eq!(&msg[6..10], &[0, 0, 0, 4]);
}

#[test]
fn ordinary_payloads_fit() {
    assert!(can_frame(ProtoVer::V33, &[0; 100]));
    assert!(can_frame(ProtoVer::V34, &[]));
    assert!(can_frame(ProtoVer::V35, &[0; 4096]));
}

#[test]
fn the_switch_is_set_in_version_33() {
    let mut dev = device(ProtoVer::V33);
    assert_eq!(
        dev.set_dp("1", &Json::Bool(true), NOW, TICKS).unwrap(),
        hex("000055aa0000000100000007000000587a437eaf67cee68a21c39c05641748c25f5d02aa4ea4503ef1ea237bb46119114c36bdeb45959df4c5204557edacce184277fa8a44d801e88e1dc1325a54ecfd16af54a9deb817db689b420063c268329eb551d60000aa55")
    );
}

#[test]
fn the_switch_is_data_point_one() {
    let mut a = device(ProtoVer::V33);
    let mut b = device(ProtoVer::V33);
    assert_eq!(
        a.set_switch(false, NOW, TICKS),
        b.set_dp("1", &Json::Bool(false), NOW, TICKS)
    );
    assert_ne!(a.set_switch(true, NOW, TICKS), b.set_switch(false, NOW, TICKS));
}

#[test]
fn the_switch_is_set_in_version_34() {
    let mut dev = device(ProtoVer::V34);
    assert_eq!(
        dev.set_dp("1", &Json::Bool(true), NOW, TICKS).unwrap(),
        hex("000055aa000000010000000d00000074641287a6903c81ec0dc5eaabdf5c43a38663e7e0727d44abe8d00aec56aee88e146540cac0c6eed69c281a593f159e246c065225a528d6270b3ed6525578505103caa73826b09cc183ac92f78fc37475b2b37a090fdf774eb7e18688e05ab1d868015d3c608bdd1bb8783397c71f8f7a0000aa55")
    );
}

#[test]
fn the_switch_is_set_in_version_35() {
    let mut dev = device(ProtoVer::V35);
    let msg = dev.set_dp("1", &Json::Bool(true), NOW, TICKS).unwrap();
    assert_eq!(
        msg,
        hex("000066990000000000010000000d000000623137313236373834303030004b5659e5a91fbeca3f01f48c238490f667dc8ea828b36343371152e7a09c0375a5c4bbf85f2a37822aee30dd42145bc4ae3e5659862da9f3dc00e261db3581259813fe8e296d2c1bd203e5729560ce2928f28fae4a2000009966")
    );
    assert_eq!(
        parse_6699(&msg, &KEY),
        Ok((13, b"{\"protocol\":5,\"t\":1712678400,\"data\":{\"dps\":{\"1\":true}}}".to_vec()))
    );
}

#[test]
fn settings_as_json() {
    assert_eq!(
        setting_json(ProtoVer::V33, "dev1", "1", &Json::Bool(false), NOW).to_text(),
        "{\"devId\":\"dev1\",\"uid\":\"dev1\",\"t\":\"1712678400\",\"dps\":{\"1\":false}}"
    );
    assert_eq!(
        setting_json(ProtoVer::V34, "dev1", "9", &Json::whole(-3), NOW).to_text(),
        "{\"protocol\":5,\"t\":1712678400,\"data\":{\"dps\":{\"9\":-3}}}"
    );
}

#[test]
fn the_state_is_asked_for() {
    let mut dev = device(ProtoVer::V33);
    assert_eq!(
        dev.query_message(NOW, TICKS).unwrap(),
        hex("000055aa000000010000000a0000004847fcc713c4c6f2810dda30c976da885ec6aa3042ac52690293a852e2931b00bd24f07ce638706c4431a59f673d0b3f1b62e719013b9c41724a9fa77509feda8fa7b5c7940000aa55")
    );
    let mut dev = device(ProtoVer::V35);
    assert_eq!(
        dev.query_message(NOW, TICKS).unwrap(),
        hex("00006699000000000001000000100000001e3137313236373834303030000305d70224160bbc220efe29996c101fb7d100009966")
    );
}

#[test]
fn all_data_points_are_asked_for() {
    assert_eq!(all_dps().len(), 52);
    assert_eq!(all_dps()[12], 50);
    assert_eq!(all_dps()[51], 143);
    let mut dev = device(ProtoVer::V33);
    dev.seqno = 1;
    assert_eq!(
        dev.update_message(TICKS).unwrap(),
        hex("000055aa0000000200000012000000d8fb6ef91b4187c9edc5c90ea5a073611d662a611b83c6e367d1080ff49841564609aacdf7a347bff2e721db1bbe5ec48687cf3d48b7b78fb1bdc47633c6fb0f0f20b752d87cfe9bef30c5dca72e2952ff7f00019fa3bb049c9f46755e05622c5592c4217b80c2d9118ce849a98f60f611e067ce2b053fcbd7b3a111681c82cdce6feea8da41a08b476de90a0b3a051d1984788137cb072b5de8eba0c064e8aa3434c07fd78091ed312720e1f1785d314294a5058758ef359fa4f6312f37eccf8cf4c48839b04132aacfc3643c0025ab4f88f6bd310000aa55")
    );
}

#[test]
fn answers_are_decrypted() {
    let dev = device(ProtoVer::V33);
    let resp = hex("000055aa000000050000000a0000003c00000000ca43a250b194f633e3d66ed182e46f5fec1de3f6d5e4f9e96a58429d5fe17df002c3ed2eee61a839064e13b0f01f0b357ed8c1ed0000aa55");
    assert_eq!(
        dev.open_answer(&resp),
        Some(Ok((10, b"{\"dps\":{\"20\":23010,\"18\":158,\"19\":3400}}".to_vec())))
    );
}

#[test]
fn answers_without_payload_are_empty() {
    let dev = device(ProtoVer::V33);
    let resp = build_55aa(ProtoVer::V33, 1, 7, &[0; 4], &KEY);
    assert_eq!(dev.open_answer(&resp), Some(Ok((7, vec![]))));
    assert_eq!(dev.open_push(&resp), Some(Ok(None)));
}

#[test]
fn a_55aa_answer_in_version_35_is_taken_as_it_is() {
    let dev = device(ProtoVer::V35);
    let resp = build_55aa(ProtoVer::V35, 1, 7, b"\0\0\0\0abc", &KEY);
    assert_eq!(dev.open_answer(&resp), Some(Ok((7, b"abc".to_vec()))));
    assert_eq!(dev.open_push(&resp), None);
}

#[test]
fn answers_that_cannot_be_used() {
    let dev = device(ProtoVer::V33);
    let e = dev.open_answer(&[1, 2, 3]).unwrap().unwrap_err();
    assert_eq!(e, ProtocolError::ResponseTooShort);
    assert_eq!(e.message(), "response too short");
    let e = dev.open_answer(&[0xde, 0xad, 0xbe, 0xef]).unwrap().unwrap_err();
    assert_eq!(e, ProtocolError::UnknownPrefix(0xdeadbeef));
    assert_eq!(e.message(), "unknown prefix: 0xdeadbeef");
    let resp = build_55aa(ProtoVer::V33, 1, 7, &[0; 20], &KEY);
    assert_eq!(dev.open_answer(&resp), None);
    assert_eq!(dev.open_answer(&resp[..12]), Some(Err(ProtocolError::TooShort)));
}

#[test]
fn messages_sent_by_the_device() {
    let dev = device(ProtoVer::V33);
    let push = hex("000055aa00000006000000080000004c000000007a437eaf67cee68a21c39c05641748c2e883bf0650c1896760045c1cfd2af567a2c988cc33bf8eecb0f6ee84cf7ea7859ccd987cc47152e2ff94a9c409885f79b316d85d0000aa55");
    assert_eq!(
        dev.open_push(&push),
        Some(Ok(Some(b"{\"data\":{\"dps\":{\"20\":23100,\"1\":true}}}".to_vec())))
    );
    let dev = device(ProtoVer::V35);
    let push = hex("000066990000000000060000000800000048313731323637383430303200067677a6c1cc3471f9adaa514f6a89cb17de0dc9ee5e10209cca4c6b89fff4833fcfa55a0673c6182eec36e14c43e433ae07acefff9574cc9ee70d5700009966");
    assert_eq!(
        dev.open_push(&push),
        Some(Ok(Some(b"{\"data\":{\"dps\":{\"20\":23100}}}".to_vec())))
    );
    assert_eq!(dev.open_push(&[1]), Some(Ok(None)));
    assert_eq!(dev.open_push(b"other bytes"), Some(Ok(None)));
}

#[test]
fn version_headers_come_off() {
    let mut plain = b"3.4".to_vec();
    plain.extend_from_slice(&[0; 12]);
    plain.extend_from_slice(b"{}");
    assert_eq!(strip_header(plain.clone()), b"{}");
    plain[2] = b'3';
    assert_eq!(strip_header(plain.clone()), b"{}");
    plain[2] = b'5';
    assert_eq!(strip_header(plain.clone()), plain);
    assert_eq!(strip_header(b"3.3".to_vec()), b"3.3");
}

#[test]
fn payloads_are_decrypted_under_the_session_key() {
    let mut dev = device(ProtoVer::V34);
    dev.session_key = Some(*b"fedcba9876543210");
    let msg = dev.command(16, b"{}", TICKS).unwrap();
    assert_eq!(dev.decrypt_payload(&msg[16..32]), Some(b"{}".to_vec()));
    let other = device(ProtoVer::V34);
    assert_eq!(other.decrypt_payload(&msg[16..31]), None);
}

#[test]
fn only_versions_34_and_35_have_sessions() {
    assert!(!has_session(ProtoVer::V33));
    assert!(has_session(ProtoVer::V34));
    assert!(has_session(ProtoVer::V35));
}

fn negotiated(version: ProtoVer, start: &str, reply: &str, finish: &str) -> TuyaDevice {
    let mut dev = device(version);
    match dev.negotiate_session(SessionEvent::Start, TICKS) {
        SessionAction::SendStart(msg) => assert_eq!(msg, hex(start)),
        other => panic!("{other:?}"),
    }
    let remote_nonce = match dev.negotiate_session(SessionEvent::Reply(hex(reply)), TICKS) {
        SessionAction::SendFinish { msg, remote_nonce } => {
            assert_eq!(msg, hex(finish));
            remote_nonce
        }
        other => panic!("{other:?}"),
    };
    assert_eq!(remote_nonce.to_vec(), (0x10..0x20).collect::<Vec<u8>>());
    assert_eq!(dev.session_key, None);
    match dev.negotiate_session(SessionEvent::FinishSent { remote_nonce }, TICKS) {
        SessionAction::Established => {}
        other => panic!("{other:?}"),
    }
    assert_eq!(dev.seqno, 2);
    dev
}

#[test]
fn a_session_is_negotiated_in_version_34() {
    let dev = negotiated(
        ProtoVer::V34,
        "000055aa0000000100000003000000343031323334353637383961626364656667c692243c39b056866f6faf64e6821f0d68193f08fb5f41c3a856c00141a0d90000aa55",
        "000055aa00000007000000040000006800000000b193ed1b7c37ea4694a149b2062b19e31f3c8aff7278cb1843c0dbd375e7db511198bc251ba14c3eca486b79d2d5dfb334af336c9f031b3556738c63e61ea2f672d81f92d1dd11cfb6a3ce8450fac969c2eaec025b5ad61584678684970cb5dc0000aa55",
        "000055aa0000000200000005000000446d4d1b012f39b1d26a7cc6a4d7fa1ee28d952c77005eb2b2f898df0b69f0ac5cd01d7eb93e1fb2bb610c3f2f391f039297eb3640a62346fe6d534132ea7f1a570000aa55",
    );
    assert_eq!(dev.session_key.unwrap().to_vec(), hex("2ad1f62772290b55d5e832cc7c3d85ec"));
}

#[test]
fn a_session_is_negotiated_in_version_35() {
    let dev = negotiated(
        ProtoVer::V35,
        "00006699000000000001000000030000002c31373132363738343030300048495ed69d2a88fd073895ee40e0f5eb3184fec0aeeb11492d2f59bd5030d29600009966",
        "000066990000000000070000000400000050313731323637383430303100f92b3b18b69fc2fa7337c836329c83f6e929bae18f624d5e262f1e43716930f43064fdf9ba9c11b823730085b7eef60da006d25f2192c5e57891d76e5afb6a4411f3c92e00009966",
        "00006699000000000002000000050000003c313731323637383430303000153577e486260f18557d3228f47e8e6fc839d0b05c82b29ea3abb7d9e54edb0b0f1a069dabfd73a0cdf6ddc63ea1f02500009966",
    );
    assert_eq!(dev.session_key.unwrap().to_vec(), hex("b339bb78ffbe2630c8000e01d39c6e7f"));
    assert_eq!(dev.enc_key().to_vec(), hex("b339bb78ffbe2630c8000e01d39c6e7f"));
}

#[test]
fn session_keys_depend_on_the_nonce() {
    let a = derive_session_key(ProtoVer::V34, &KEY, &[0; 16]);
    let b = derive_session_key(ProtoVer::V34, &KEY, &[1; 16]);
    assert_ne!(a, b);
}

#[test]
fn replies_are_checked() {
    let mut plain = (0x10..0x20).collect::<Vec<u8>>();
    plain.extend_from_slice(&hex("4528654bb666b7a399183fcd7e6da3c9a55d796ef254d2051fd35d9976630432"));
    assert!(check_reply(&KEY, &plain).is_ok());
    let e = check_reply(&KEY, &plain[..47]).unwrap_err();
    assert_eq!(e, ProtocolError::SessionTooShort(47));
    assert_eq!(e.message(), "session response too short: 47 bytes");
    plain[20] ^= 1;
    let e = check_reply(&KEY, &plain).unwrap_err();
    assert_eq!(e, ProtocolError::HmacMismatch);
    assert_eq!(e.message(), "HMAC verification of local_nonce failed");
}

#[test]
fn replies_that_cannot_be_used() {
    let mut dev = device(ProtoVer::V35);
    let mut reply = |bytes: Vec<u8>| match dev.negotiate_session(SessionEvent::Reply(bytes), TICKS) {
        SessionAction::Failed(e) => Some(e),
        SessionAction::Fatal => None,
        other => panic!("{other:?}"),
    };
    assert_eq!(reply(vec![0, 0]), None);
    assert_eq!(reply(vec![1, 2, 3, 4]), Some(ProtocolError::UnexpectedPrefix(0x01020304)));
    let short = build_6699(1, 4, b"\0\0\0\0nonce", &KEY, &nonce_at(1));
    assert_eq!(reply(short), Some(ProtocolError::SessionTooShort(5)));
    let unopened = build_55aa(ProtoVer::V35, 1, 4, &[0; 20], &KEY);
    assert_eq!(reply(unopened), None);
    assert_eq!(
        ProtocolError::UnexpectedPrefix(0x01020304).message(),
        "unexpected prefix: 0x1020304"
    );
}

#[test]
fn a_good_reply_is_answered_unless_the_numbers_are_used_up() {
    let mut plain = vec![0; 4];
    plain.extend(0x10..0x20);
    plain.extend_from_slice(&hex("4528654bb666b7a399183fcd7e6da3c9a55d796ef254d2051fd35d9976630432"));
    let reply = build_6699(7, 4, &plain, &KEY, &nonce_at(1));
    let mut dev = device(ProtoVer::V35);
    dev.seqno = u32::MAX - 1;
    match dev.negotiate_session(SessionEvent::Reply(reply.clone()), TICKS) {
        SessionAction::SendFinish { remote_nonce, .. } => assert_eq!(remote_nonce[0], 0x10),
        other => panic!("{other:?}"),
    }
    assert_eq!(dev.seqno, u32::MAX);
    assert!(matches!(
        dev.negotiate_session(SessionEvent::Reply(reply), TICKS),
        SessionAction::Fatal
    ));
    assert!(matches!(dev.negotiate_session(SessionEvent::Start, TICKS), SessionAction::Fatal));
}

#[test]
fn what_was_encrypted_decrypts_to_itself() {
    for n in [0, 1, 15, 16, 17, 33] {
        let payload = vec![0x5a; n];
        let mut dev = device(ProtoVer::V34);
        let msg = dev.command(9, &payload, TICKS).unwrap();
        let sealed = &msg[16..msg.len() - 36];
        let plain = aes_ecb_decrypt_safe(&KEY, sealed).unwrap();
        assert!(plain.ends_with(&payload));
        assert_eq!(sealed.len(), (plain.len() / 16 + 1) * 16);
        let mut changed = sealed.to_vec();
        changed[0] ^= 1;
        assert_ne!(aes_ecb_decrypt_safe(&KEY, &changed), Some(plain));
    }
}
