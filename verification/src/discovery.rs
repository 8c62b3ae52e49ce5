//! Finding the address of a device on the local network.
//!
//! A device with a known MAC address is looked up in the ARP table of the system. Any device can
//! be found by the broadcasts that it sends, on UDP port 6666 in versions up to 3.4 and on port
//! 7000 in version 3.5.

use crate::bytes::{
    be32, be32_at, be32_reads_back, first_at, first_at_is_first, position, read_be32, same_bytes,
};
use crate::control::text_member;
use crate::crypto::{aes_ecb_decrypt_safe, bytes_view, ecb_opened, md5_digest, md5_of};
use crate::frame::{
    build_6699, clock_nonce, fits_6699, frame_55aa, frame_6699, nonce_at, open_6699, plain_6699,
    unframed, ProtoVer, PREFIX_55AA, PREFIX_6699,
};
use crate::json::{get_in, json_prefix, parse_json_prefix, Json, JsonModel};
use crate::text::{
    ascii_white_space, char_at, chars_of, cut_into, dec, dec_is_ascii, decimal, decimals_read_back,
    digit_char, digit_value, digits_and_letters_count, find_char, find_part, first_word, found_at,
    is_space, numbers_are_written_apart, parse_uint, parsed_uint, part_at, pieces, pieces_grow,
    pieces_of_joined, pieces_view, positional, same_text, scanned, space_comes_off, stands_at,
    text_of, texts_without_cuts_are_one_piece, trim_chars, trimmed, two_digits_are_read, word_of,
    words_are_read, words_stand_behind_spaces, Cut, IntError,
};
use vstd::prelude::*;

verus! {

/// For how long, in seconds, a device is looked for by its broadcasts.
pub const AUTO_IP_DISCOVERY_TIMEOUT_SECS: u64 = 60;

pub const CMD_REQ_DEVINFO: u32 = 0x25;

/// The key of broadcasts.
pub open spec fn udp_key() -> Seq<u8> {
    md5_of(vstd::utf8::encode_utf8("yGAdlopoPVldABfn"@))
}

/// The key of broadcasts.
pub fn tuya_udp_key() -> (r: [u8; 16])
    ensures
        r@ == udp_key(),
{
    md5_digest("yGAdlopoPVldABfn".as_bytes())
}

// ── Broadcasts ──

/// The plaintext of a broadcast in the 55AA format, which has no return code.
pub open spec fn broadcast_55aa(pkt: Seq<u8>, key: Seq<u8>) -> Option<Seq<u8>> {
    let length = be32_at(pkt, 12) as int;
    if pkt.len() < 24 || be32_at(pkt, 0) != PREFIX_55AA || length < 8 || 16 + length > pkt.len() {
        None
    } else {
        ecb_opened(key, pkt.subrange(16, 8 + length))
    }
}

/// Opens a broadcast in the 55AA format.
pub fn parse_55aa_broadcast(pkt: &[u8], key: &[u8; 16]) -> (r: Option<Vec<u8>>)
    ensures
        bytes_view(r) == broadcast_55aa(pkt@, key@),
{
    if pkt.len() < 24 {
        return None;
    }
    let prefix: u32 = read_be32(pkt, 0);
    if prefix != PREFIX_55AA {
        return None;
    }
    let length: u64 = read_be32(pkt, 12) as u64;
    if length < 8 || 16 + length > pkt.len() as u64 {
        return None;
    }
    let enc_end: usize = (16 + length - 8) as usize;
    aes_ecb_decrypt_safe(key, vstd::slice::slice_subrange(pkt, 16, enc_end))
}

/// The plaintext of a broadcast in the 6699 format.
pub open spec fn broadcast_6699(pkt: Seq<u8>, key: Seq<u8>) -> Option<Seq<u8>> {
    let length = be32_at(pkt, 14) as int;
    if pkt.len() < 22 || be32_at(pkt, 0) != PREFIX_6699 || length < 28 || 22 + length > pkt.len() {
        None
    } else {
        plain_6699(pkt, key)
    }
}

/// A broadcast in the 55AA format opens to what was enciphered into it, whatever stands behind it;
/// one that was cut off counts for nothing.
pub proof fn enciphered_broadcasts_open(
    seq: u32,
    cmd: u32,
    sealed: Seq<u8>,
    key: Seq<u8>,
    more: Seq<u8>,
    k: int,
)
    requires
        sealed.len() + 8 <= u32::MAX,
        0 <= k < 24 + sealed.len(),
    ensures
        ({
            let pkt = frame_55aa(ProtoVer::V33, seq, cmd, sealed, key);
            &&& broadcast_55aa(pkt + more, key) == ecb_opened(key, sealed)
            &&& broadcast_55aa(pkt.take(k), key) is None
        }),
{
    let pkt = frame_55aa(ProtoVer::V33, seq, cmd, sealed, key);
    let length = ((sealed.len() as u32) + 8) as u32;
    assert(pkt.len() == 24 + sealed.len());
    assert(pkt.subrange(0, 4) =~= be32(PREFIX_55AA));
    assert(pkt.subrange(12, 16) =~= be32(length));
    assert(pkt.subrange(16, 16 + sealed.len() as int) =~= sealed);
    be32_reads_back(pkt, 0, PREFIX_55AA);
    be32_reads_back(pkt, 12, length);
    cut_or_longer_broadcast(pkt, sealed.len() as int, key, more, k);
}

proof fn cut_or_longer_broadcast(pkt: Seq<u8>, p: int, key: Seq<u8>, more: Seq<u8>, k: int)
    requires
        p >= 0,
        pkt.len() == 24 + p,
        be32_at(pkt, 0) == PREFIX_55AA,
        be32_at(pkt, 12) == p + 8,
        0 <= k < pkt.len(),
    ensures
        broadcast_55aa(pkt + more, key) == ecb_opened(key, pkt.subrange(16, 16 + p)),
        broadcast_55aa(pkt.take(k), key) is None,
{
    let long = pkt + more;
    assert(be32_at(long, 0) == be32_at(pkt, 0));
    assert(be32_at(long, 12) == be32_at(pkt, 12));
    assert(long.subrange(16, 16 + p) =~= pkt.subrange(16, 16 + p));
    if k >= 24 {
        let short = pkt.take(k);
        assert(be32_at(short, 12) == be32_at(pkt, 12));
    }
}

/// A broadcast in the 6699 format opens to what was sealed into it, whatever stands behind it; one
/// that was cut off counts for nothing.
pub proof fn sealed_broadcasts_open(
    pkt: Seq<u8>,
    key: Seq<u8>,
    seq: u32,
    cmd: u32,
    plain: Seq<u8>,
    more: Seq<u8>,
    k: int,
)
    requires
        unframed(ProtoVer::V35, key, pkt) == Some((seq, cmd, plain)),
        0 <= k < pkt.len(),
    ensures
        broadcast_6699(pkt + more, key) == Some(plain),
        broadcast_6699(pkt.take(k), key) is None,
{
    let long = pkt + more;
    let n = pkt.len() as int;
    assert(be32_at(long, 0) == be32_at(pkt, 0));
    assert(be32_at(long, 14) == be32_at(pkt, 14));
    assert(long.subrange(18, 30) =~= pkt.subrange(18, 30));
    assert(long.subrange(4, 18) =~= pkt.subrange(4, 18));
    assert(long.subrange(30, n - 20) =~= pkt.subrange(30, n - 20));
    assert(long.subrange(n - 20, n - 4) =~= pkt.subrange(n - 20, n - 4));
    if k >= 22 {
        let short = pkt.take(k);
        assert(be32_at(short, 14) == be32_at(pkt, 14));
    }
}

/// A packet that is shorter than the shortest broadcast, that starts with another prefix, or whose
/// length leaves no room for the ends of a broadcast or exceeds what has come, counts for nothing.
pub proof fn other_packets_count_for_nothing(pkt: Seq<u8>, key: Seq<u8>)
    ensures
        pkt.len() < 24 ==> broadcast_55aa(pkt, key) is None,
        pkt.len() < 50 ==> broadcast_6699(pkt, key) is None,
        pkt.len() >= 4 && pkt.take(4) != seq![0u8, 0u8, 0x55u8, 0xaau8] ==> broadcast_55aa(pkt, key)
            is None,
        pkt.len() >= 4 && pkt.take(4) != seq![0u8, 0u8, 0x66u8, 0x99u8] ==> broadcast_6699(pkt, key)
            is None,
        be32_at(pkt, 12) < 8 || be32_at(pkt, 12) > pkt.len() - 16 ==> broadcast_55aa(pkt, key)
            is None,
        be32_at(pkt, 14) < 28 || be32_at(pkt, 14) > pkt.len() - 22 ==> broadcast_6699(pkt, key)
            is None,
{
    if pkt.len() >= 4 {
        let start = pkt.take(4);
        assert(start[0] == pkt[0] && start[1] == pkt[1] && start[2] == pkt[2] && start[3]
            == pkt[3]);
        if be32_at(pkt, 0) == PREFIX_55AA {
            assert(start =~= seq![0u8, 0u8, 0x55u8, 0xaau8]);
        }
        if be32_at(pkt, 0) == PREFIX_6699 {
            assert(start =~= seq![0u8, 0u8, 0x66u8, 0x99u8]);
        }
    }
}

/// Opens a broadcast in the 6699 format.
pub fn parse_6699_broadcast(pkt: &[u8], key: &[u8; 16]) -> (r: Option<Vec<u8>>)
    ensures
        bytes_view(r) == broadcast_6699(pkt@, key@),
{
    if pkt.len() < 22 {
        return None;
    }
    let prefix: u32 = read_be32(pkt, 0);
    if prefix != PREFIX_6699 {
        return None;
    }
    let length: u64 = read_be32(pkt, 14) as u64;
    if length < 28 || 18 + length + 4 > pkt.len() as u64 {
        return None;
    }
    open_6699(pkt, key)
}

/// The JSON value that starts at the first brace of a payload.
pub open spec fn broadcast_json(payload: Seq<u8>) -> Option<JsonModel> {
    match first_at(payload, 0x7b) {
        Some(i) => json_prefix(payload.skip(i)),
        None => None,
    }
}

/// Reads the JSON value in a broadcast.
pub fn extract_broadcast_json(payload: &[u8]) -> (r: Option<Json>)
    ensures
        broadcast_json(payload@) == (match r {
            Some(j) => Some(j@),
            None => None,
        }),
{
    match position(payload, 0x7b) {
        None => None,
        Some(start) => {
            assert(payload@.skip(start as int) =~= payload@.subrange(
                start as int,
                payload@.len() as int,
            ));
            parse_json_prefix(vstd::slice::slice_subrange(payload, start, payload.len()))
        },
    }
}

/// The device that a broadcast comes from, by its name for itself.
pub open spec fn names_device(json: JsonModel, device_id: Seq<char>) -> bool {
    device_id == (match get_in(json, "gwId"@) {
        Some(JsonModel::Str(id)) => id,
        _ => ""@,
    })
}

/// Whether a broadcast names a device.
pub fn is_from(json: &Json, device_id: &str) -> (r: bool)
    ensures
        r == names_device(json@, device_id@),
{
    let gw_id = match json.get("gwId") {
        Some(v) => match v.as_str() {
            Some(id) => id,
            None => "",
        },
        None => "",
    };
    same_text(gw_id, device_id)
}

/// The port on which a packet came.
#[derive(Clone, Copy, Debug, PartialEq, Eq, Structural)]
pub enum Port {
    Udp6666,
    Udp7000,
}

/// Whether a packet comes from a device.
pub open spec fn heard_from(port: Port, pkt: Seq<u8>, key: Seq<u8>, device_id: Seq<char>) -> bool {
    let plain = match port {
        Port::Udp6666 => broadcast_55aa(pkt, key),
        Port::Udp7000 => broadcast_6699(pkt, key),
    };
    match plain {
        Some(payload) => match broadcast_json(payload) {
            Some(json) => names_device(json, device_id),
            None => false,
        },
        None => false,
    }
}

/// The value in a payload starts at its first brace, whatever stands before it; without a brace
/// there is none.
pub proof fn broadcasts_are_read_from_the_brace(junk: Seq<u8>, text: Seq<u8>)
    requires
        forall|i: int| 0 <= i < junk.len() ==> #[trigger] junk[i] != 0x7b,
        text.len() > 0,
        text[0] == 0x7b,
    ensures
        broadcast_json(junk + text) == json_prefix(text),
        broadcast_json(junk) is None,
{
    let whole = junk + text;
    first_at_is_first(whole, 0x7b);
    first_at_is_first(junk, 0x7b);
    assert(whole[junk.len() as int] == 0x7b);
    let i = first_at(whole, 0x7b)->0;
    if i < junk.len() {
        assert(whole[i] == junk[i]);
    }
    assert(whole.skip(i) =~= text);
}

/// A packet that opens to a value with a name is heard from the device of that name, and from no
/// other; on port 6666 it is opened as a 55AA message, on port 7000 as a 6699 message. A packet
/// that does not open, or without a value, is heard from none.
pub proof fn packets_are_heard_from_whom_they_name(
    port: Port,
    pkt: Seq<u8>,
    key: Seq<u8>,
    payload: Seq<u8>,
    json: JsonModel,
    id: Seq<char>,
    other: Seq<char>,
)
    ensures
        ({
            let opened = match port {
                Port::Udp6666 => broadcast_55aa(pkt, key),
                Port::Udp7000 => broadcast_6699(pkt, key),
            };
            &&& opened == Some(payload) && broadcast_json(payload) == Some(json) && get_in(
                json,
                "gwId"@,
            ) == Some(JsonModel::Str(id)) ==> (heard_from(port, pkt, key, other) <==> other == id)
            &&& opened == Some(payload) && broadcast_json(payload) is None ==> !heard_from(
                port,
                pkt,
                key,
                other,
            )
            &&& opened is None ==> !heard_from(port, pkt, key, other)
            &&& opened == Some(payload) && broadcast_json(payload) == Some(json) && !(get_in(
                json,
                "gwId"@,
            ) matches Some(JsonModel::Str(_))) && other.len() > 0 ==> !heard_from(
                port,
                pkt,
                key,
                other,
            )
        }),
{
    reveal_strlit("");
}

/// Decides whether a packet comes from a device.
pub fn hears(port: Port, pkt: &[u8], key: &[u8; 16], device_id: &str) -> (r: bool)
    ensures
        r == heard_from(port, pkt@, key@, device_id@),
{
    let payload = match port {
        Port::Udp6666 => parse_55aa_broadcast(pkt, key),
        Port::Udp7000 => parse_6699_broadcast(pkt, key),
    };
    match payload {
        Some(payload) => match extract_broadcast_json(payload.as_slice()) {
            Some(json) => is_from(&json, device_id),
            None => false,
        },
        None => false,
    }
}

// ── Probes ──

/// What a probe says.
pub open spec fn probe_text(self_ip: Seq<char>) -> Seq<char> {
    "{\"from\":\"app\",\"ip\":\""@ + self_ip + "\"}"@
}

/// The plaintext of a probe.
pub open spec fn probe_payload(self_ip: Seq<char>) -> Seq<u8> {
    vstd::utf8::encode_utf8(probe_text(self_ip))
}

/// What a probe says: an object that tells who asks, and from which address.
pub proof fn probes_name_the_sender(self_ip: Seq<char>)
    ensures
        probe_text(self_ip) == seq!['{'] + text_member("from"@, "app"@) + seq![','] + text_member(
            "ip"@,
            self_ip,
        ) + seq!['}'],
        probe_payload(self_ip) == vstd::utf8::encode_utf8(probe_text(self_ip)),
{
    reveal_strlit("{\"from\":\"app\",\"ip\":\"");
    reveal_strlit("\"}");
    reveal_strlit("from");
    reveal_strlit("app");
    reveal_strlit("ip");
    assert(probe_text(self_ip) =~= seq!['{'] + text_member("from"@, "app"@) + seq![',']
        + text_member("ip"@, self_ip) + seq!['}']);
}

/// Builds the packet that asks devices of version 3.5 for a broadcast; nothing where the address
/// is too long for it. Whoever has the key finds what the probe says in it.
pub fn build_discovery_probe(self_ip: &str, key: &[u8; 16], ticks: u64) -> (r: Option<Vec<u8>>)
    ensures
        match r {
            Some(pkt) => fits_6699(probe_payload(self_ip@)) && pkt@ == frame_6699(
                0,
                CMD_REQ_DEVINFO,
                probe_payload(self_ip@),
                key@,
                clock_nonce(ticks),
            ) && pkt@.len() == probe_payload(self_ip@).len() + 50 && (probe_payload(self_ip@).len() + 28 <= u32::MAX ==> broadcast_6699(pkt@, key@)
                == Some(probe_payload(self_ip@))),
            None => !fits_6699(probe_payload(self_ip@)),
        },
        r matches Some(pkt) ==> (probe_payload(self_ip@).len() + 28 <= u32::MAX ==> unframed(
            ProtoVer::V35,
            key@,
            pkt@,
        ) == Some((0u32, 0x25u32, probe_payload(self_ip@)))),
        probe_payload(self_ip@).len() + 28 <= u32::MAX ==> r is Some,
{
    let mut text = "{\"from\":\"app\",\"ip\":\"".to_string();
    text.append(self_ip);
    text.append("\"}");
    let payload = text.as_str().as_bytes();
    if !crate::device::can_frame(ProtoVer::V35, payload) {
        return None;
    }
    let nonce = nonce_at(ticks);
    Some(build_6699(0, CMD_REQ_DEVINFO, payload, key, nonce.as_slice()))
}

/// An IPv4 address in dotted notation.
pub open spec fn dotted(o: Seq<u8>) -> Seq<char> {
    dec(o[0] as nat) + "."@ + dec(o[1] as nat) + "."@ + dec(o[2] as nat) + "."@ + dec(o[3] as nat)
}

/// Writes an IPv4 address.
pub fn dotted_text(o: &[u8; 4]) -> (r: String)
    ensures
        r@ == dotted(o@),
{
    let mut out = decimal(o[0] as u64);
    out.append(".");
    out.append(decimal(o[1] as u64).as_str());
    out.append(".");
    out.append(decimal(o[2] as u64).as_str());
    out.append(".");
    out.append(decimal(o[3] as u64).as_str());
    out
}

/// An address falls at its dots into the four numbers of its bytes.
pub proof fn addresses_fall_at_their_dots(o: Seq<u8>)
    requires
        o.len() == 4,
    ensures
        pieces(dotted(o), Cut::Dot) == seq![
            dec(o[0] as nat),
            dec(o[1] as nat),
            dec(o[2] as nat),
            dec(o[3] as nat),
        ],
{
    let (a, b, c, d) = (o[0] as nat, o[1] as nat, o[2] as nat, o[3] as nat);
    dec_is_ascii(a);
    assert forall|i: int| 0 <= i < dec(a).len() implies !Cut::Dot.at(#[trigger] dec(a)[i]) by {}
    texts_without_cuts_are_one_piece(dec(a), Cut::Dot, '.');
    let s1 = dec(a) + "."@ + dec(b);
    let s2 = s1 + "."@ + dec(c);
    dotted_pieces(dec(a), b);
    dotted_pieces(s1, c);
    dotted_pieces(s2, d);
    assert(dotted(o) =~= s2 + "."@ + dec(d));
    assert(pieces(s2 + "."@ + dec(d), Cut::Dot) =~= seq![dec(a), dec(b), dec(c), dec(d)]);
}

/// Where probes go: to all hosts, and to those of the subnet, which is the given one or, where
/// the own address is known, that of its first 24 bits.
pub open spec fn probed(self_ip: Seq<u8>, bcast: Option<Seq<char>>) -> Seq<Seq<char>> {
    let all = seq!["255.255.255.255:7000"@];
    match bcast {
        Some(b) => all.push(b + ":7000"@),
        None => if self_ip[0] != 0 {
            all.push(dotted(self_ip.update(3, 255)) + ":7000"@)
        } else {
            all
        },
    }
}

/// Probes always go to all hosts. They also go to the given broadcast address, and where there is
/// none to that of the own subnet of 24 bits, unless the own address is not known.
pub proof fn probes_reach_the_subnet(a: u8, b: u8, c: u8, d: u8, bcast: Seq<char>)
    ensures
        probed(seq![a, b, c, d], Some(bcast)) == seq!["255.255.255.255:7000"@, bcast + ":7000"@],
        a != 0 ==> probed(seq![a, b, c, d], None) == seq![
            "255.255.255.255:7000"@,
            dotted(seq![a, b, c, 255u8]) + ":7000"@,
        ],
        a == 0 ==> probed(seq![a, b, c, d], None) == seq!["255.255.255.255:7000"@],
{
    assert(seq![a, b, c, d].update(3, 255u8) =~= seq![a, b, c, 255u8]);
    assert(probed(seq![a, b, c, d], Some(bcast)) =~= seq![
        "255.255.255.255:7000"@,
        bcast + ":7000"@,
    ]);
    if a != 0 {
        assert(probed(seq![a, b, c, d], None) =~= seq![
            "255.255.255.255:7000"@,
            dotted(seq![a, b, c, 255u8]) + ":7000"@,
        ]);
    }
}

/// The views of texts.
pub open spec fn texts(v: Seq<String>) -> Seq<Seq<char>> {
    Seq::new(v.len(), |i: int| v[i]@)
}

/// The view of an optional text.
pub open spec fn text_view(s: Option<&str>) -> Option<Seq<char>> {
    match s {
        Some(t) => Some(t@),
        None => None,
    }
}

/// Where probes go.
pub fn probe_targets(self_ip: &[u8; 4], bcast_override: Option<&str>) -> (r: Vec<String>)
    ensures
        texts(r@) == probed(self_ip@, text_view(bcast_override)),
{
    let mut out: Vec<String> = Vec::new();
    out.push("255.255.255.255:7000".to_string());
    if let Some(b) = bcast_override {
        let mut target = b.to_string();
        target.append(":7000");
        out.push(target);
    } else if self_ip[0] != 0 {
        let subnet: [u8; 4] = [self_ip[0], self_ip[1], self_ip[2], 255];
        assert(subnet@ =~= self_ip@.update(3, 255));
        let mut target = dotted_text(&subnet);
        target.append(":7000");
        out.push(target);
    }
    assert(texts(out@) =~= probed(self_ip@, text_view(bcast_override)));
    out
}

/// The hosts of the subnet with a last byte from 1 up to `n`, but for the own address, each with
/// the port to which a packet goes.
pub open spec fn swept(own: Seq<u8>, n: nat) -> Seq<Seq<char>>
    decreases n,
{
    if n == 0 {
        Seq::empty()
    } else {
        let before = swept(own, (n - 1) as nat);
        if n == own[3] {
            before
        } else {
            before.push(dotted(own.update(3, n as u8)) + ":9"@)
        }
    }
}

/// A sweep reaches every other host of the subnet once.
pub proof fn sweep_reaches_all(own: Seq<u8>, n: nat, host: u8)
    requires
        own.len() == 4,
        n <= 254,
        1 <= host <= n,
        host != own[3],
    ensures
        swept(own, n).contains(dotted(own.update(3, host)) + ":9"@),
        swept(own, n).len() == n - (if 1 <= own[3] <= n {
            1int
        } else {
            0
        }),
    decreases n,
{
    sweep_len(own, n);
    let goal = dotted(own.update(3, host)) + ":9"@;
    let before = swept(own, (n - 1) as nat);
    if host == n {
        assert(swept(own, n).last() == goal);
        assert(swept(own, n)[swept(own, n).len() - 1] == goal);
    } else {
        sweep_reaches_all(own, (n - 1) as nat, host);
        let i = choose|i: int| 0 <= i < before.len() && before[i] == goal;
        assert(swept(own, n)[i] == goal);
    }
}

/// Numbers that differ are written differently.
proof fn decimals_differ(a: nat, b: nat)
    requires
        a != b,
    ensures
        dec(a) != dec(b),
{
    numbers_are_written_apart(a, b);
}

/// A sweep leaves the own address out.
pub proof fn sweep_spares_itself(own: Seq<u8>, n: nat, i: int)
    requires
        own.len() == 4,
        n <= 254,
        0 <= i < swept(own, n).len(),
    ensures
        swept(own, n)[i] != dotted(own) + ":9"@,
    decreases n,
{
    let before = swept(own, (n - 1) as nat);
    if i < before.len() {
        sweep_spares_itself(own, (n - 1) as nat, i);
    } else {
        let other = own.update(3, n as u8);
        let start = dec(own[0] as nat) + "."@ + dec(own[1] as nat) + "."@ + dec(own[2] as nat)
            + "."@;
        decimals_differ(n, own[3] as nat);
        let x = dotted(other) + ":9"@;
        let y = dotted(own) + ":9"@;
        assert(x =~= start + dec(n) + ":9"@);
        assert(y =~= start + dec(own[3] as nat) + ":9"@);
        let a = start.len() as int;
        assert(x.len() == a + dec(n).len() + ":9"@.len());
        assert(y.len() == a + dec(own[3] as nat).len() + ":9"@.len());
        if x == y {
            assert(x.subrange(a, a + dec(n).len()) =~= dec(n));
            assert(y.subrange(a, a + dec(n).len()) =~= dec(own[3] as nat));
        }
    }
}

proof fn sweep_len(own: Seq<u8>, n: nat)
    requires
        own.len() == 4,
        n <= 254,
    ensures
        swept(own, n).len() == n - (if 1 <= own[3] <= n {
            1int
        } else {
            0
        }),
    decreases n,
{
    if n > 0 {
        sweep_len(own, (n - 1) as nat);
    }
}

/// Where the packets of a sweep go.
pub fn sweep_targets(own: &[u8; 4]) -> (r: Vec<String>)
    ensures
        texts(r@) == swept(own@, 254),
        forall|host: u8|
            1 <= host <= 254 && host != own@[3] ==> texts(r@).contains(
                #[trigger] dotted(own@.update(3, host)) + ":9"@,
            ),
        r@.len() == (if 1 <= own@[3] <= 254 {
            253int
        } else {
            254
        }),
{
    let mut out: Vec<String> = Vec::new();
    let mut i: u8 = 1;
    assert(texts(out@) =~= swept(own@, 0));
    while i < 255
        invariant
            1 <= i <= 255,
            texts(out@) == swept(own@, (i - 1) as nat),
        decreases 255 - i,
    {
        let ghost before = texts(out@);
        if i != own[3] {
            let host: [u8; 4] = [own[0], own[1], own[2], i];
            assert(host@ =~= own@.update(3, i));
            let mut target = dotted_text(&host);
            target.append(":9");
            let ghost t = target@;
            out.push(target);
            assert(texts(out@) =~= before.push(t));
        }
        i = i + 1;
    }
    proof {
        sweep_len(own@, 254);
        assert(texts(out@).len() == out@.len());
        assert forall|host: u8| 1 <= host <= 254 && host != own@[3] implies texts(out@).contains(
            #[trigger] dotted(own@.update(3, host)) + ":9"@,
        ) by {
            sweep_reaches_all(own@, 254, host);
        }
    }
    out
}

// ── MAC addresses ──

/// The bytes that the pieces of a MAC address stand for.
pub open spec fn mac_bytes(parts: Seq<Seq<char>>) -> Option<Seq<u8>>
    decreases parts.len(),
{
    if parts.len() == 0 {
        Some(Seq::empty())
    } else {
        match (mac_bytes(parts.drop_last()), parsed_uint(parts.last(), 16, 255)) {
            (Some(before), Ok(v)) => Some(before.push(v as u8)),
            _ => None,
        }
    }
}

/// The MAC address that a text stands for: six hexadecimal numbers with colons or dashes between
/// them.
pub open spec fn mac_of(s: Seq<char>) -> Option<Seq<u8>> {
    let parts = pieces(trimmed(s), Cut::ColonOrDash);
    if parts.len() != 6 {
        None
    } else {
        mac_bytes(parts)
    }
}

/// Texts with separators between them.
pub open spec fn separated(parts: Seq<Seq<char>>, seps: Seq<char>) -> Seq<char>
    decreases parts.len(),
{
    if parts.len() == 0 {
        Seq::empty()
    } else if parts.len() == 1 {
        parts[0]
    } else {
        separated(parts.drop_last(), seps).push(seps[parts.len() - 2]) + parts.last()
    }
}

/// Whether a text can be a piece of a MAC address: it is not empty, and it has neither
/// separators nor white space.
pub open spec fn plain_piece(s: Seq<char>) -> bool {
    s.len() > 0 && forall|i: int|
        0 <= i < s.len() ==> !Cut::ColonOrDash.at(#[trigger] s[i]) && !is_space(s[i])
}

proof fn separated_pieces(parts: Seq<Seq<char>>, seps: Seq<char>)
    requires
        parts.len() > 0,
        seps.len() >= parts.len() - 1,
        forall|i: int| 0 <= i < parts.len() ==> plain_piece(#[trigger] parts[i]),
        forall|i: int| 0 <= i < seps.len() ==> Cut::ColonOrDash.at(#[trigger] seps[i]),
    ensures
        pieces(separated(parts, seps), Cut::ColonOrDash) == parts,
        separated(parts, seps).len() > 0,
        !is_space(separated(parts, seps)[0]),
        !is_space(separated(parts, seps).last()),
    decreases parts.len(),
{
    let cut = Cut::ColonOrDash;
    let n = parts.len() as int;
    let last = parts[n - 1];
    if n == 1 {
        let empty = Seq::<char>::empty();
        pieces_grow(empty, last, cut);
        assert(empty + last =~= last);
        assert(pieces(empty, cut) =~= seq![empty]);
        assert(seq![empty].drop_last().push(empty + last) =~= parts);
    } else {
        let init = parts.drop_last();
        assert forall|i: int| 0 <= i < init.len() implies plain_piece(#[trigger] init[i]) by {
            assert(init[i] == parts[i]);
        }
        separated_pieces(init, seps);
        let before = separated(init, seps);
        let with_sep = before.push(seps[n - 2]);
        assert(with_sep.drop_last() =~= before);
        pieces_grow(with_sep, last, cut);
        let p = pieces(with_sep, cut);
        assert(p == init.push(Seq::empty()));
        assert(p.drop_last() =~= init);
        assert(p.last() + last =~= last);
        assert(init.push(last) =~= parts);
        let whole = with_sep + last;
        assert(whole[0] == before[0]);
        assert(whole.last() == last[last.len() - 1]);
    }
}

/// A MAC address is read number by number, whichever of colon and dash stand between the
/// numbers, and whatever white space stands around it.
pub proof fn mac_is_read_by_pieces(
    parts: Seq<Seq<char>>,
    seps: Seq<char>,
    before: Seq<char>,
    behind: Seq<char>,
)
    requires
        parts.len() == 6,
        seps.len() == 5,
        forall|i: int| 0 <= i < before.len() ==> is_space(#[trigger] before[i]),
        forall|i: int| 0 <= i < behind.len() ==> is_space(#[trigger] behind[i]),
        forall|i: int| 0 <= i < 6 ==> plain_piece(#[trigger] parts[i]),
        forall|i: int| 0 <= i < 5 ==> Cut::ColonOrDash.at(#[trigger] seps[i]),
    ensures
        mac_of(before + separated(parts, seps) + behind) == mac_bytes(parts),
{
    separated_pieces(parts, seps);
    space_comes_off(before, separated(parts, seps), behind);
}

/// Hexadecimal digits count the same in either case.
pub proof fn hex_digits_have_no_case(n: nat)
    requires
        10 <= n < 16,
    ensures
        digit_value((n + 87) as char, 16) == Some(n),
        digit_value((n + 55) as char, 16) == Some(n),
{
}

/// A byte in two hexadecimal digits, with small letters or capital ones.
pub open spec fn hex_pair(b: u8, capital: bool) -> Seq<char> {
    let digit = |v: nat|
        if v < 10 {
            (v + '0' as nat) as char
        } else if capital {
            (v - 10 + 'A' as nat) as char
        } else {
            (v - 10 + 'a' as nat) as char
        };
    seq![digit((b / 16) as nat), digit((b % 16) as nat)]
}

proof fn hex_pairs_are_bytes(b: u8, capital: bool)
    ensures
        parsed_uint(hex_pair(b, capital), 16, 255) == Ok::<nat, IntError>(b as nat),
        plain_piece(hex_pair(b, capital)),
{
    let (x, y) = ((b / 16) as nat, (b % 16) as nat);
    let p = hex_pair(b, capital);
    digits_and_letters_count(x, 16, p[0]);
    digits_and_letters_count(y, 16, p[1]);
    two_digits_are_read(p[0], p[1], 16, 255, x, y);
    assert(p =~= seq![p[0], p[1]]);
    assert(x * 16 + y == b);
    assert forall|i: int| 0 <= i < p.len() implies !Cut::ColonOrDash.at(#[trigger] p[i])
        && !is_space(p[i]) by {
        ascii_white_space(p[i]);
    }
}

/// The bytes of a MAC address, each in two hexadecimal digits of either case, with colons or
/// dashes between them and white space around, are read as those bytes.
pub proof fn macs_read_as_written(
    mac: Seq<u8>,
    capital: Seq<bool>,
    seps: Seq<char>,
    before: Seq<char>,
    behind: Seq<char>,
)
    requires
        mac.len() == 6,
        seps.len() == 5,
        forall|i: int| 0 <= i < 5 ==> (#[trigger] seps[i] == ':' || seps[i] == '-'),
        forall|i: int| 0 <= i < before.len() ==> is_space(#[trigger] before[i]),
        forall|i: int| 0 <= i < behind.len() ==> is_space(#[trigger] behind[i]),
    ensures
        mac_of(
            before + separated(Seq::new(6, |i: int| hex_pair(mac[i], capital[i])), seps) + behind,
        ) == Some(mac),
{
    let parts = Seq::new(6, |i: int| hex_pair(mac[i], capital[i]));
    assert forall|i: int| 0 <= i < 6 implies plain_piece(#[trigger] parts[i]) by {
        hex_pairs_are_bytes(mac[i], capital[i]);
    }
    mac_is_read_by_pieces(parts, seps, before, behind);
    assert forall|i: int| 0 <= i < 6 implies parsed_uint(#[trigger] parts[i], 16, 255) == Ok::<
        nat,
        IntError,
    >(mac[i] as nat) by {
        hex_pairs_are_bytes(mac[i], capital[i]);
    }
    parts_are_bytes(parts, mac);
}

proof fn parts_are_bytes(parts: Seq<Seq<char>>, mac: Seq<u8>)
    requires
        parts.len() == mac.len(),
        forall|i: int|
            0 <= i < parts.len() ==> parsed_uint(#[trigger] parts[i], 16, 255) == Ok::<
                nat,
                IntError,
            >(mac[i] as nat),
    ensures
        mac_bytes(parts) == Some(mac),
    decreases parts.len(),
{
    if parts.len() == 0 {
        assert(mac =~= Seq::<u8>::empty());
    } else {
        let (init, bytes) = (parts.drop_last(), mac.drop_last());
        assert forall|i: int| 0 <= i < init.len() implies parsed_uint(#[trigger] init[i], 16, 255)
            == Ok::<nat, IntError>(bytes[i] as nat) by {
            assert(init[i] == parts[i]);
        }
        parts_are_bytes(init, bytes);
        let last = parts.len() - 1;
        assert(parsed_uint(parts[last], 16, 255) == Ok::<nat, IntError>(mac[last] as nat));
        assert(bytes.push(mac[last]) =~= mac);
    }
}

/// Fewer or more than six numbers, or a number that is none, are no MAC address.
pub proof fn other_texts_are_no_macs(parts: Seq<Seq<char>>, seps: Seq<char>, i: int)
    requires
        parts.len() > 0,
        seps.len() >= parts.len() - 1,
        forall|k: int| 0 <= k < parts.len() ==> plain_piece(#[trigger] parts[k]),
        forall|k: int| 0 <= k < seps.len() ==> (#[trigger] seps[k] == ':' || seps[k] == '-'),
        0 <= i < parts.len(),
    ensures
        parts.len() != 6 || parsed_uint(parts[i], 16, 255) is Err ==> mac_of(
            separated(parts, seps),
        ) is None,
{
    let none = Seq::<char>::empty();
    separated_pieces(parts, seps);
    space_comes_off(none, separated(parts, seps), none);
    assert(none + separated(parts, seps) + none =~= separated(parts, seps));
    if parsed_uint(parts[i], 16, 255) is Err {
        mac_bytes_of_part(parts, i);
    }
}

/// The view of an optional MAC address.
pub open spec fn mac_view(m: Option<[u8; 6]>) -> Option<Seq<u8>> {
    match m {
        Some(mac) => Some(mac@),
        None => None,
    }
}

proof fn mac_bytes_of_part(parts: Seq<Seq<char>>, i: int)
    requires
        0 <= i < parts.len(),
        parsed_uint(parts[i], 16, 255) is Err,
    ensures
        mac_bytes(parts) is None,
    decreases parts.len(),
{
    if i < parts.len() - 1 {
        assert(parts.drop_last()[i] == parts[i]);
        mac_bytes_of_part(parts.drop_last(), i);
    }
}

fn parse_mac_chars(s: &[char]) -> (r: Option<[u8; 6]>)
    ensures
        mac_view(r) == mac_of(s@),
{
    let text = trim_chars(s);
    let parts = cut_into(text.as_slice(), Cut::ColonOrDash);
    let ghost all = pieces_view(parts@);
    if parts.len() != 6 {
        return None;
    }
    let mut out: [u8; 6] = [0u8; 6];
    let mut i: usize = 0;
    assert(mac_bytes(all.take(0)) == Some(Seq::<u8>::empty())) by {
        assert(all.take(0).len() == 0);
    }
    assert(out@.take(0) =~= Seq::<u8>::empty());
    while i < 6
        invariant
            i <= 6,
            parts@.len() == 6,
            all == pieces_view(parts@),
            all == pieces(trimmed(s@), Cut::ColonOrDash),
            mac_bytes(all.take(i as int)) == Some(out@.take(i as int)),
        decreases 6 - i,
    {
        assert(all.take(i + 1).drop_last() =~= all.take(i as int));
        assert(all.take(i + 1).last() == parts@[i as int]@);
        let ghost before = out@;
        match parse_uint(parts[i].as_slice(), 16, 255) {
            Err(_) => {
                proof {
                    mac_bytes_of_part(all, i as int);
                }
                return None;
            },
            Ok(v) => {
                out[i] = v as u8;
            },
        }
        assert(out@.take(i + 1) =~= before.take(i as int).push(out@[i as int]));
        i = i + 1;
    }
    assert(all.take(6) =~= all);
    assert(out@.take(6) =~= out@);
    Some(out)
}

/// Reads a MAC address.
pub fn parse_mac(s: &str) -> (r: Option<[u8; 6]>)
    ensures
        mac_view(r) == mac_of(s@),
{
    let chars = chars_of(s);
    parse_mac_chars(chars.as_slice())
}

// ── The ARP table ──

/// Whether a text is a byte in decimal notation, without leading zeros.
pub open spec fn is_octet(s: Seq<char>) -> bool {
    1 <= s.len() <= 3 && '0' <= s[0] <= '9' && (s[0] == '0' ==> s.len() == 1) && parsed_uint(
        s,
        10,
        255,
    ) is Ok
}

/// Whether a text is an IPv4 address.
pub open spec fn is_ipv4(s: Seq<char>) -> bool {
    let parts = pieces(s, Cut::Dot);
    parts.len() == 4 && is_octet(parts[0]) && is_octet(parts[1]) && is_octet(parts[2]) && is_octet(
        parts[3],
    )
}

/// A byte in decimal notation has one to three digits, and no leading zeros.
proof fn bytes_are_octets(n: nat)
    requires
        n < 256,
    ensures
        is_octet(dec(n)),
{
    decimals_read_back(n, 255);
    reveal_with_fuel(positional, 4);
    dec_is_ascii(n);
    if n < 10 {
        assert(dec(n) =~= seq![digit_char(n)]);
    } else if n < 100 {
        assert(dec(n) =~= seq![digit_char(n / 10), digit_char(n % 10)]);
    } else {
        assert(dec(n) =~= seq![digit_char(n / 10 / 10), digit_char(n / 10 % 10), digit_char(n % 10)]);
    }
}

/// A further byte behind a dot is a further piece.
proof fn dotted_pieces(s: Seq<char>, n: nat)
    ensures
        pieces(s + "."@ + dec(n), Cut::Dot) == pieces(s, Cut::Dot).push(dec(n)),
{
    reveal_strlit(".");
    let with_dot = s.push('.');
    assert(s + "."@ =~= with_dot);
    assert(with_dot.drop_last() =~= s);
    dec_is_ascii(n);
    assert forall|i: int| 0 <= i < dec(n).len() implies !Cut::Dot.at(#[trigger] dec(n)[i]) by {}
    pieces_grow(with_dot, dec(n), Cut::Dot);
    let p = pieces(with_dot, Cut::Dot);
    assert(p == pieces(s, Cut::Dot).push(Seq::empty()));
    assert(p.drop_last() =~= pieces(s, Cut::Dot));
    assert(p.last() + dec(n) =~= dec(n));
}

/// What is written in dotted notation is an IPv4 address.
pub proof fn dotted_texts_are_addresses(o: Seq<u8>)
    requires
        o.len() == 4,
    ensures
        is_ipv4(dotted(o)),
{
    let (a, b, c, d) = (o[0] as nat, o[1] as nat, o[2] as nat, o[3] as nat);
    bytes_are_octets(a);
    bytes_are_octets(b);
    bytes_are_octets(c);
    bytes_are_octets(d);
    let empty = Seq::<char>::empty();
    dec_is_ascii(a);
    assert forall|i: int| 0 <= i < dec(a).len() implies !Cut::Dot.at(#[trigger] dec(a)[i]) by {}
    pieces_grow(empty, dec(a), Cut::Dot);
    assert(pieces(empty, Cut::Dot) =~= seq![empty]);
    assert(empty + dec(a) =~= dec(a));
    assert(pieces(dec(a), Cut::Dot) =~= seq![dec(a)]);
    let s1 = dec(a) + "."@ + dec(b);
    let s2 = s1 + "."@ + dec(c);
    let s3 = s2 + "."@ + dec(d);
    dotted_pieces(dec(a), b);
    dotted_pieces(s1, c);
    dotted_pieces(s2, d);
    assert(dotted(o) =~= s3);
    assert(pieces(s3, Cut::Dot) =~= seq![dec(a), dec(b), dec(c), dec(d)]);
}

fn octet(s: &Vec<char>) -> (r: bool)
    ensures
        r == is_octet(s@),
{
    1 <= s.len() && s.len() <= 3 && '0' <= s[0] && s[0] <= '9' && (s[0] != '0' || s.len() == 1)
        && parse_uint(s.as_slice(), 10, 255).is_ok()
}

fn ipv4(s: &[char]) -> (r: bool)
    ensures
        r == is_ipv4(s@),
{
    let parts = cut_into(s, Cut::Dot);
    let ghost all = pieces_view(parts@);
    if parts.len() != 4 {
        return false;
    }
    assert(all[0] == parts@[0]@ && all[1] == parts@[1]@ && all[2] == parts@[2]@ && all[3]
        == parts@[3]@);
    octet(&parts[0]) && octet(&parts[1]) && octet(&parts[2]) && octet(&parts[3])
}

/// The address in a line of the ARP table: what stands between the first parentheses.
pub open spec fn arp_address(line: Seq<char>) -> Option<Seq<char>> {
    match (char_at(line, '('), char_at(line, ')')) {
        (Some(a), Some(b)) => if b > a + 1 {
            Some(line.subrange(a + 1, b))
        } else {
            None
        },
        _ => None,
    }
}

/// The MAC address in a line of the ARP table: the first word behind ` at `.
pub open spec fn arp_mac(line: Seq<char>) -> Option<Seq<u8>> {
    match part_at(line, seq![' ', 'a', 't', ' ']) {
        Some(i) => mac_of(first_word(line.skip(i + 4))),
        None => None,
    }
}

/// The address that a line of the ARP table gives for a MAC address.
pub open spec fn arp_entry(line: Seq<char>, target: Seq<u8>) -> Option<Seq<char>> {
    match arp_address(line) {
        Some(ip) => if arp_mac(line) == Some(target) && is_ipv4(ip) {
            Some(ip)
        } else {
            None
        },
        None => None,
    }
}

/// The address that the first fitting line gives.
pub open spec fn first_entry(lines: Seq<Seq<char>>, target: Seq<u8>) -> Option<Seq<char>>
    decreases lines.len(),
{
    if lines.len() == 0 {
        None
    } else {
        match arp_entry(lines[0], target) {
            Some(ip) => Some(ip),
            None => first_entry(lines.skip(1), target),
        }
    }
}

/// The address that the ARP table, as `arp -an` prints it, gives for a MAC address.
pub open spec fn arp_lookup(table: Seq<char>, target: Seq<u8>) -> Option<Seq<char>> {
    first_entry(pieces(table, Cut::Line), target)
}

/// Whether a text is made of digits and dots.
spec fn address_chars(s: Seq<char>) -> bool {
    forall|i: int| 0 <= i < s.len() ==> '0' <= #[trigger] s[i] <= '9' || s[i] == '.'
}

proof fn joined_address_chars(a: Seq<char>, b: Seq<char>)
    requires
        address_chars(a),
        address_chars(b),
    ensures
        address_chars(a + b),
{
}

/// A dotted address is made of digits and dots.
proof fn dotted_chars(o: Seq<u8>)
    requires
        o.len() == 4,
    ensures
        address_chars(dotted(o)),
        dotted(o).len() > 0,
{
    reveal_strlit(".");
    dec_is_ascii(o[0] as nat);
    dec_is_ascii(o[1] as nat);
    dec_is_ascii(o[2] as nat);
    dec_is_ascii(o[3] as nat);
    let (a, b, c, d) = (dec(o[0] as nat), dec(o[1] as nat), dec(o[2] as nat), dec(o[3] as nat));
    joined_address_chars(a, "."@);
    joined_address_chars(a + "."@, b);
    joined_address_chars(a + "."@ + b, "."@);
    joined_address_chars(a + "."@ + b + "."@, c);
    joined_address_chars(a + "."@ + b + "."@ + c, "."@);
    joined_address_chars(a + "."@ + b + "."@ + c + "."@, d);
}

/// Where the parts of a line of the ARP table stand.
proof fn arp_line_parts(ip: Seq<char>, behind: Seq<char>)
    requires
        address_chars(ip),
    ensures
        ({
            let line = "? ("@ + ip + ") at "@ + behind;
            let k = 3 + ip.len() as int;
            &&& char_at(line, '(') == Some(2int)
            &&& char_at(line, ')') == Some(k)
            &&& line.subrange(3, k) == ip
            &&& found_at(line, seq![' ', 'a', 't', ' '], k + 1)
            &&& line.skip(k + 5) == behind
        }),
{
    reveal_strlit("? (");
    reveal_strlit(") at ");
    let line = "? ("@ + ip + ") at "@ + behind;
    let k = 3 + ip.len() as int;
    assert(line[0] == '?' && line[1] == ' ' && line[2] == '(');
    assert forall|i: int| 3 <= i < k implies #[trigger] line[i] == ip[i - 3] by {}
    assert(line[k] == ')' && line[k + 1] == ' ' && line[k + 2] == 'a' && line[k + 3] == 't'
        && line[k + 4] == ' ');
    first_at_is_first(line, '(');
    first_at_is_first(line, ')');
    assert(char_at(line, '(') == Some(2int));
    assert(char_at(line, ')') == Some(k)) by {
        let i = char_at(line, ')')->0;
        if 3 <= i < k {
            assert(line[i] == ip[i - 3]);
        }
    }
    let at = seq![' ', 'a', 't', ' '];
    assert(line.subrange(k + 1, k + 5) =~= at);
    assert(stands_at(line, at, k + 1));
    assert forall|j: int| 0 <= j < k + 1 implies !stands_at(line, at, j) by {
        if stands_at(line, at, j) {
            assert(line.subrange(j, j + 4)[0] == line[j]);
            assert(line.subrange(j, j + 4)[1] == line[j + 1]);
            if 3 <= j < k {
                assert(line[j] == ip[j - 3]);
            }
        }
    }
    assert(found_at(line, at, k + 1));
}

/// A line of the ARP table with an address gives it for its MAC address.
proof fn arp_line_gives(ip: Seq<char>, word: Seq<char>, rest: Seq<char>, target: Seq<u8>)
    requires
        address_chars(ip),
        is_ipv4(ip),
        ip.len() > 0,
        word.len() > 0,
        forall|i: int| 0 <= i < word.len() ==> !is_space(#[trigger] word[i]),
        rest.len() > 0 ==> is_space(rest[0]),
        mac_of(word) == Some(target),
    ensures
        arp_entry("? ("@ + ip + ") at "@ + (word + rest), target) == Some(ip),
{
    arp_line_parts(ip, word + rest);
    let line = "? ("@ + ip + ") at "@ + (word + rest);
    let at = seq![' ', 'a', 't', ' '];
    let f = choose|i: int| found_at(line, at, i);
    assert(found_at(line, at, f));
    assert(f == 4 + ip.len());
    words_are_read(word, rest);
}

/// A line of the ARP table such as `? (192.168.1.7) at aa:bb:cc:dd:ee:ff [ether] on eth0` gives
/// its address for its MAC address.
pub proof fn arp_lines_are_read(o: Seq<u8>, word: Seq<char>, rest: Seq<char>, target: Seq<u8>)
    requires
        o.len() == 4,
        word.len() > 0,
        forall|i: int| 0 <= i < word.len() ==> !is_space(#[trigger] word[i]),
        rest.len() > 0 ==> is_space(rest[0]),
        mac_of(word) == Some(target),
    ensures
        arp_entry("? ("@ + dotted(o) + ") at "@ + word + rest, target) == Some(dotted(o)),
{
    let ip = dotted(o);
    dotted_chars(o);
    dotted_texts_are_addresses(o);
    arp_line_gives(ip, word, rest, target);
    vstd::seq_lib::lemma_concat_associative("? ("@ + ip + ") at "@, word, rest);
}

/// Where the parts of a line of the ARP table stand that starts with the name of the host.
proof fn named_line_parts(lead: Seq<char>, ip: Seq<char>, behind: Seq<char>)
    requires
        address_chars(ip),
        forall|i: int| 0 <= i < lead.len() ==> #[trigger] lead[i] != '(' && lead[i] != ')',
        forall|i: int| !stands_at(lead, seq![' ', 'a', 't', ' '], i),
    ensures
        ({
            let line = lead + seq!['('] + ip + ") at "@ + behind;
            let n = lead.len() as int;
            let k = n + 1 + ip.len() as int;
            &&& char_at(line, '(') == Some(n)
            &&& char_at(line, ')') == Some(k)
            &&& line.subrange(n + 1, k) == ip
            &&& found_at(line, seq![' ', 'a', 't', ' '], k + 1)
            &&& line.skip(k + 5) == behind
        }),
{
    reveal_strlit(") at ");
    let line = lead + seq!['('] + ip + ") at "@ + behind;
    let n = lead.len() as int;
    let k = n + 1 + ip.len() as int;
    assert forall|i: int| 0 <= i < n implies #[trigger] line[i] == lead[i] by {}
    assert(line[n] == '(');
    assert forall|i: int| n < i < k implies #[trigger] line[i] == ip[i - n - 1] by {}
    assert(line[k] == ')' && line[k + 1] == ' ' && line[k + 2] == 'a' && line[k + 3] == 't'
        && line[k + 4] == ' ');
    first_at_is_first(line, '(');
    first_at_is_first(line, ')');
    assert(char_at(line, '(') == Some(n)) by {
        let i = char_at(line, '(')->0;
        if i < n {
            assert(line[i] == lead[i]);
        }
    }
    assert(char_at(line, ')') == Some(k)) by {
        let i = char_at(line, ')')->0;
        if i < n {
            assert(line[i] == lead[i]);
        } else if n < i < k {
            assert(line[i] == ip[i - n - 1]);
        }
    }
    let at = seq![' ', 'a', 't', ' '];
    assert(line.subrange(k + 1, k + 5) =~= at);
    assert forall|j: int| 0 <= j < k + 1 implies !stands_at(line, at, j) by {
        if stands_at(line, at, j) {
            let part = line.subrange(j, j + 4);
            assert(part[0] == line[j] && part[1] == line[j + 1] && part[2] == line[j + 2] && part[3]
                == line[j + 3]);
            if n < j < k {
                assert(line[j] == ip[j - n - 1]);
            } else if j + 4 <= n {
                assert(lead.subrange(j, j + 4) =~= part);
                assert(stands_at(lead, at, j));
            } else if j <= n {
                assert(line[n] == '(');
            }
        }
    }
    assert(stands_at(line, at, k + 1));
    assert(line.skip(k + 5) =~= behind);
    assert(line.subrange(n + 1, k) =~= ip);
}

/// A line of the ARP table may start with the name of the host in place of a question mark, and
/// more than one blank may stand before the MAC address.
pub proof fn named_arp_lines_are_read(
    lead: Seq<char>,
    o: Seq<u8>,
    blanks: Seq<char>,
    word: Seq<char>,
    rest: Seq<char>,
    target: Seq<u8>,
)
    requires
        forall|i: int| 0 <= i < lead.len() ==> #[trigger] lead[i] != '(' && lead[i] != ')',
        forall|i: int| !stands_at(lead, seq![' ', 'a', 't', ' '], i),
        o.len() == 4,
        forall|i: int| 0 <= i < blanks.len() ==> is_space(#[trigger] blanks[i]),
        word.len() > 0,
        forall|i: int| 0 <= i < word.len() ==> !is_space(#[trigger] word[i]),
        rest.len() > 0 ==> is_space(rest[0]),
    ensures
        arp_entry(lead + seq!['('] + dotted(o) + ") at "@ + (blanks + (word + rest)), target) == (
        if mac_of(word) == Some(target) {
            Some(dotted(o))
        } else {
            None
        }),
{
    dotted_chars(o);
    dotted_texts_are_addresses(o);
    named_line_gives(lead, dotted(o), blanks, word, rest, target);
}

proof fn named_line_gives(
    lead: Seq<char>,
    ip: Seq<char>,
    blanks: Seq<char>,
    word: Seq<char>,
    rest: Seq<char>,
    target: Seq<u8>,
)
    requires
        address_chars(ip),
        is_ipv4(ip),
        ip.len() > 0,
        forall|i: int| 0 <= i < lead.len() ==> #[trigger] lead[i] != '(' && lead[i] != ')',
        forall|i: int| !stands_at(lead, seq![' ', 'a', 't', ' '], i),
        forall|i: int| 0 <= i < blanks.len() ==> is_space(#[trigger] blanks[i]),
        word.len() > 0,
        forall|i: int| 0 <= i < word.len() ==> !is_space(#[trigger] word[i]),
        rest.len() > 0 ==> is_space(rest[0]),
    ensures
        arp_entry(lead + seq!['('] + ip + ") at "@ + (blanks + (word + rest)), target) == (if mac_of(
            word,
        ) == Some(target) {
            Some(ip)
        } else {
            None
        }),
{
    let behind = blanks + (word + rest);
    named_line_parts(lead, ip, behind);
    let line = lead + seq!['('] + ip + ") at "@ + behind;
    let at = seq![' ', 'a', 't', ' '];
    let f = choose|i: int| found_at(line, at, i);
    assert(found_at(line, at, f));
    assert(f == lead.len() + 2 + ip.len());
    words_stand_behind_spaces(blanks, word, rest);
}

/// A line gives its address for its own MAC address only.
pub proof fn lines_speak_of_one_device(line: Seq<char>, target: Seq<u8>, other: Seq<u8>)
    requires
        arp_entry(line, target) is Some,
        other != target,
    ensures
        arp_entry(line, other) is None,
{
}

/// A table is read line by line, and the first line that gives an address counts.
pub proof fn tables_are_read_line_by_line(line: Seq<char>, rest: Seq<char>, target: Seq<u8>)
    requires
        forall|i: int| 0 <= i < line.len() ==> #[trigger] line[i] != '\n',
    ensures
        arp_lookup(line.push('\n') + rest, target) == (match arp_entry(line, target) {
            Some(ip) => Some(ip),
            None => arp_lookup(rest, target),
        }),
        arp_lookup(line, target) == arp_entry(line, target),
{
    assert forall|i: int| 0 <= i < line.len() implies !Cut::Line.at(#[trigger] line[i]) by {}
    texts_without_cuts_are_one_piece(line, Cut::Line, '\n');
    pieces_of_joined(line, '\n', rest, Cut::Line);
    let all = seq![line] + pieces(rest, Cut::Line);
    assert(all[0] == line);
    assert(all.skip(1) =~= pieces(rest, Cut::Line));
    assert(seq![line].skip(1) =~= Seq::<Seq<char>>::empty());
    assert(first_entry(seq![line].skip(1), target) is None);
}

/// Pieces with dots between them.
spec fn with_dots(parts: Seq<Seq<char>>) -> Seq<char>
    decreases parts.len(),
{
    if parts.len() <= 1 {
        parts[0]
    } else {
        with_dots(parts.drop_last()).push('.') + parts.last()
    }
}

proof fn dots_join_pieces(s: Seq<char>)
    ensures
        pieces(s, Cut::Dot).len() > 0,
        with_dots(pieces(s, Cut::Dot)) == s,
    decreases s.len(),
{
    let p = pieces(s, Cut::Dot);
    if s.len() > 0 {
        let init = s.drop_last();
        let before = pieces(init, Cut::Dot);
        dots_join_pieces(init);
        if Cut::Dot.at(s.last()) {
            assert(p.drop_last() =~= before);
            assert(with_dots(p) =~= s);
        } else {
            assert(p.drop_last() =~= before.drop_last());
            if before.len() == 1 {
                assert(p =~= seq![init.push(s.last())]);
                assert(init.push(s.last()) =~= s);
            } else {
                assert(with_dots(before) == with_dots(before.drop_last()).push('.')
                    + before.last());
                let x = with_dots(before.drop_last()).push('.');
                assert(p.last() == before.last().push(s.last()));
                assert(with_dots(p) == x + p.last());
                assert(x + p.last() =~= (x + before.last()).push(s.last()));
                assert(init.push(s.last()) =~= s);
            }
        }
    }
}

/// A text of digits without leading zeros is the decimal notation of its number.
proof fn octets_are_bytes(s: Seq<char>) -> (n: u8)
    requires
        is_octet(s),
    ensures
        s == dec(n as nat),
{
    let none = Seq::<char>::empty();
    let a = s[0];
    reveal_with_fuel(positional, 4);
    reveal_with_fuel(scanned, 4);
    if s.len() == 1 {
        let x = (a as int - 48) as nat;
        assert(s =~= dec(x));
        x as u8
    } else if s.len() == 2 {
        let b = s[1];
        assert(s.skip(1)[0] == b);
        let n = ((a as int - 48) * 10 + (b as int - 48)) as nat;
        assert('0' <= b <= '9');
        assert(s =~= dec(n));
        n as u8
    } else {
        let (b, c) = (s[1], s[2]);
        assert(s.skip(1)[0] == b);
        assert('0' <= b <= '9');
        assert(s.skip(1).skip(1)[0] == c);
        assert('0' <= c <= '9');
        let n = ((a as int - 48) * 100 + (b as int - 48) * 10 + (c as int - 48)) as nat;
        assert(s.skip(1).skip(1).skip(1).len() == 0);
        assert(n <= 255);
        assert(n / 10 == (a as int - 48) * 10 + (b as int - 48));
        assert(s =~= dec(n));
        n as u8
    }
}

/// A text is an IPv4 address only where it is the dotted notation of four bytes.
pub proof fn addresses_are_four_bytes(s: Seq<char>)
    requires
        is_ipv4(s),
    ensures
        exists|o: Seq<u8>| o.len() == 4 && s == #[trigger] dotted(o),
{
    let p = pieces(s, Cut::Dot);
    dots_join_pieces(s);
    let a = octets_are_bytes(p[0]);
    let b = octets_are_bytes(p[1]);
    let c = octets_are_bytes(p[2]);
    let d = octets_are_bytes(p[3]);
    let o = seq![a, b, c, d];
    reveal_with_fuel(with_dots, 5);
    reveal_strlit(".");
    let p3 = p.drop_last();
    let p2 = p3.drop_last();
    let p1 = p2.drop_last();
    assert(p1[0] == p[0] && p2.last() == p[1] && p3.last() == p[2] && p.last() == p[3]);
    assert(with_dots(p1) == p[0]);
    assert(with_dots(p2) == p[0].push('.') + p[1]);
    assert(with_dots(p3) == (p[0].push('.') + p[1]).push('.') + p[2]);
    assert(s == ((p[0].push('.') + p[1]).push('.') + p[2]).push('.') + p[3]);
    assert(s =~= dotted(o));
}

/// What a lookup gives is an IPv4 address.
pub proof fn lookups_give_addresses(lines: Seq<Seq<char>>, target: Seq<u8>)
    ensures
        first_entry(lines, target) matches Some(ip) ==> is_ipv4(ip),
    decreases lines.len(),
{
    if lines.len() > 0 {
        lookups_give_addresses(lines.skip(1), target);
    }
}

/// The view of an optional text.
pub open spec fn string_view(s: Option<String>) -> Option<Seq<char>> {
    match s {
        Some(t) => Some(t@),
        None => None,
    }
}

fn same_mac(a: &[u8; 6], b: &[u8; 6]) -> (r: bool)
    ensures
        r == (a@ == b@),
{
    same_bytes(a.as_slice(), b.as_slice())
}

fn read_arp_line(line: &[char], target: &[u8; 6]) -> (r: Option<String>)
    ensures
        string_view(r) == arp_entry(line@, target@),
{
    let ip = match (find_char(line, '('), find_char(line, ')')) {
        (Some(a), Some(b)) => {
            if b <= a || b - a == 1 {
                return None;
            }
            vstd::slice::slice_subrange(line, a + 1, b)
        },
        _ => {
            return None;
        },
    };
    let at: Vec<char> = vec![' ', 'a', 't', ' '];
    assert(at@ =~= seq![' ', 'a', 't', ' ']);
    let word = match find_part(line, at.as_slice()) {
        Some(i) => {
            let len: usize = line.len();
            assert(i + 4 <= len);
            assert(line@.skip(i + 4) =~= line@.subrange(i + 4, len as int));
            word_of(vstd::slice::slice_subrange(line, i + 4, len))
        },
        None => {
            return None;
        },
    };
    match parse_mac_chars(word.as_slice()) {
        Some(mac) => {
            if same_mac(&mac, target) && ipv4(ip) {
                Some(text_of(ip))
            } else {
                None
            }
        },
        None => None,
    }
}

/// Looks a MAC address up in the ARP table, as `arp -an` prints it.
pub fn lookup_ip_by_mac(table: &str, target: &[u8; 6]) -> (r: Option<String>)
    ensures
        string_view(r) == arp_lookup(table@, target@),
{
    let chars = chars_of(table);
    let lines = cut_into(chars.as_slice(), Cut::Line);
    let ghost all = pieces_view(lines@);
    let mut i: usize = 0;
    assert(all.skip(0) =~= all);
    while i < lines.len()
        invariant
            i <= lines@.len(),
            all == pieces_view(lines@),
            all == pieces(table@, Cut::Line),
            first_entry(all, target@) == first_entry(all.skip(i as int), target@),
        decreases lines@.len() - i,
    {
        assert(all.skip(i as int)[0] == lines@[i as int]@);
        assert(all.skip(i as int).skip(1) =~= all.skip(i + 1));
        match read_arp_line(lines[i].as_slice(), target) {
            Some(ip) => {
                return Some(ip);
            },
            None => {},
        }
        i = i + 1;
    }
    None
}

// ── Scanning for broadcasts ──

/// How often, in nanoseconds, probes are sent.
pub const PROBE_NANOS: u128 = 5_000_000_000;

/// A scan under way. Moments are in nanoseconds from any fixed one.
#[derive(Debug)]
pub struct Scan {
    pub device_id: String,
    /// The key of broadcasts.
    pub key: [u8; 16],
    pub timeout_secs: u64,
    pub started: u128,
    pub last_probe: u128,
}

/// A [`Scan`] with its text and key taken by their view.
pub ghost struct Scanning {
    pub device_id: Seq<char>,
    pub key: Seq<u8>,
    pub timeout_secs: u64,
    pub started: u128,
    pub last_probe: u128,
}

impl View for Scan {
    type V = Scanning;

    open spec fn view(&self) -> Scanning {
        Scanning {
            device_id: self.device_id@,
            key: self.key@,
            timeout_secs: self.timeout_secs,
            started: self.started,
            last_probe: self.last_probe,
        }
    }
}

/// What happened in a scan.
#[derive(Debug)]
pub enum ScanEvent {
    /// The next round begins.
    Round { now: u128 },
    /// A packet came.
    Packet { port: Port, data: Vec<u8> },
}

/// A [`ScanEvent`] with its bytes taken by their view.
pub ghost enum ScanNews {
    Round { now: u128 },
    Packet { port: Port, data: Seq<u8> },
}

impl View for ScanEvent {
    type V = ScanNews;

    open spec fn view(&self) -> ScanNews {
        match self {
            ScanEvent::Round { now } => ScanNews::Round { now: *now },
            ScanEvent::Packet { port, data } => ScanNews::Packet { port: *port, data: data@ },
        }
    }
}

/// What is to be done in a scan.
#[derive(Clone, Copy, Debug, PartialEq, Eq, Structural)]
pub enum ScanAction {
    /// Give up.
    GiveUp,
    /// Send probes, and listen on both ports.
    ProbeAndListen,
    /// Listen on both ports.
    Listen,
    /// The sender of the packet is the device.
    Found,
    /// The packet counts for nothing.
    Ignore,
}

impl Scanning {
    /// Whether the time of the scan is over.
    pub open spec fn over(self, now: u128) -> bool {
        now > self.started + self.timeout_secs * 1_000_000_000
    }

    /// What is to be done after an event, and the scan from then on. A clock that was set back
    /// shows no time to have passed.
    pub open spec fn after(self, news: ScanNews) -> (Scanning, ScanAction) {
        match news {
            ScanNews::Round { now } => if self.over(now) {
                (self, ScanAction::GiveUp)
            } else if now >= self.last_probe + PROBE_NANOS {
                (Scanning { last_probe: now, ..self }, ScanAction::ProbeAndListen)
            } else {
                (self, ScanAction::Listen)
            },
            ScanNews::Packet { port, data } => if heard_from(
                port,
                data,
                self.key,
                self.device_id,
            ) {
                (self, ScanAction::Found)
            } else {
                (self, ScanAction::Ignore)
            },
        }
    }
}

impl Scan {
    /// A scan for a device, before which a probe was sent.
    pub fn new(device_id: &str, timeout_secs: u64, last_probe: u128, started: u128) -> (r: Scan)
        ensures
            r@ == (Scanning {
                device_id: device_id@,
                key: udp_key(),
                timeout_secs,
                started,
                last_probe,
            }),
    {
        Scan {
            device_id: device_id.to_string(),
            key: tuya_udp_key(),
            timeout_secs,
            started,
            last_probe,
        }
    }

    /// Decides what is to be done after an event.
    pub fn discover_via_udp(&mut self, event: ScanEvent) -> (r: ScanAction)
        ensures
            (final(self)@, r) == old(self)@.after(event@),
    {
        match event {
            ScanEvent::Round { now } => {
                let limit: u128 = self.timeout_secs as u128 * 1_000_000_000;
                if now > self.started && now - self.started > limit {
                    return ScanAction::GiveUp;
                }
                if now >= self.last_probe && now - self.last_probe >= PROBE_NANOS {
                    self.last_probe = now;
                    return ScanAction::ProbeAndListen;
                }
                ScanAction::Listen
            },
            ScanEvent::Packet { port, data } => {
                if hears(port, data.as_slice(), &self.key, self.device_id.as_str()) {
                    ScanAction::Found
                } else {
                    ScanAction::Ignore
                }
            },
        }
    }
}

/// The sentence for a scan that has found nothing.
pub open spec fn scan_failure(device_id: Seq<char>, timeout_secs: u64) -> Seq<char> {
    "no broadcast received from device "@ + device_id + " within "@ + dec(timeout_secs as nat)
        + "s"@
}

/// The sentence for a scan that has found nothing names the device, and the seconds that the scan
/// took in decimal notation.
pub proof fn failures_name_device_and_seconds(device_id: Seq<char>, n: u64)
    ensures
        scan_failure(device_id, n) == "no broadcast received from device "@ + (device_id + (
        " within "@ + (dec(n as nat) + "s"@))),
{
    assert(scan_failure(device_id, n) =~= "no broadcast received from device "@ + (device_id + (
    " within "@ + (dec(n as nat) + "s"@))));
}

/// Says that a scan has found nothing.
pub fn scan_failure_text(device_id: &str, timeout_secs: u64) -> (r: String)
    ensures
        r@ == scan_failure(device_id@, timeout_secs),
{
    let mut out = "no broadcast received from device ".to_string();
    out.append(device_id);
    out.append(" within ");
    out.append(decimal(timeout_secs).as_str());
    out.append("s");
    out
}

/// Between two probes of a scan lie at least five seconds, and no probe is sent when the time is
/// over.
pub proof fn probes_keep_their_distance(scan: Scanning, now: u128)
    requires
        scan.after(ScanNews::Round { now }).1 == ScanAction::ProbeAndListen,
    ensures
        now - scan.last_probe >= PROBE_NANOS,
        !scan.over(now),
        scan.after(ScanNews::Round { now }).0.after(ScanNews::Round { now }).1
            == ScanAction::Listen,
{
}

/// A scan gives up when its time is over. Before that it probes where five seconds have passed
/// since the last probe, whose moment it notes, and listens. A packet changes nothing, and ends the
/// scan exactly where it is heard from the device.
pub proof fn scans_probe_and_listen(scan: Scanning, now: u128, port: Port, data: Seq<u8>)
    ensures
        ({
            let (next, action) = scan.after(ScanNews::Round { now });
            let over = now - scan.started > scan.timeout_secs * 1_000_000_000;
            let due = now - scan.last_probe >= 5_000_000_000;
            &&& action == ScanAction::GiveUp <==> over
            &&& action == ScanAction::ProbeAndListen <==> !over && due
            &&& action == ScanAction::Listen <==> !over && !due
            &&& next.last_probe == (if !over && due {
                now
            } else {
                scan.last_probe
            })
            &&& next.started == scan.started
            &&& next.timeout_secs == scan.timeout_secs
            &&& next.device_id == scan.device_id
            &&& next.key == scan.key
        }),
        scan.after(ScanNews::Packet { port, data }).0 == scan,
        scan.after(ScanNews::Packet { port, data }).1 == (if heard_from(
            port,
            data,
            scan.key,
            scan.device_id,
        ) {
            ScanAction::Found
        } else {
            ScanAction::Ignore
        }),
{
}

/// A scan finds only the device that it looks for.
pub proof fn only_the_device_is_found(scan: Scanning, port: Port, data: Seq<u8>)
    requires
        scan.after(ScanNews::Packet { port, data }).1 == ScanAction::Found,
    ensures
        ({
            let plain = match port {
                Port::Udp6666 => broadcast_55aa(data, scan.key),
                Port::Udp7000 => broadcast_6699(data, scan.key),
            };
            plain matches Some(payload) && broadcast_json(payload) matches Some(json)
                && names_device(json, scan.device_id)
        }),
{
}

// ── Finding a device ──

/// What happened in the search for a device.
#[derive(Debug)]
pub enum SearchEvent {
    /// The search begins.
    Start,
    /// The ARP table was read.
    ArpTable(String),
    /// The subnet was swept, and the ARP table was read again.
    ArpTableAfterSweep(String),
}

/// A [`SearchEvent`] with its text taken by its view.
pub ghost enum SearchNews {
    Start,
    ArpTable(Seq<char>),
    ArpTableAfterSweep(Seq<char>),
}

impl View for SearchEvent {
    type V = SearchNews;

    open spec fn view(&self) -> SearchNews {
        match self {
            SearchEvent::Start => SearchNews::Start,
            SearchEvent::ArpTable(t) => SearchNews::ArpTable(t@),
            SearchEvent::ArpTableAfterSweep(t) => SearchNews::ArpTableAfterSweep(t@),
        }
    }
}

/// What is to be done in the search for a device.
#[derive(Debug)]
pub enum SearchAction {
    /// Read the ARP table.
    ReadArpTable,
    /// Sweep the subnet, and read the ARP table again.
    Sweep,
    /// Scan for broadcasts.
    Scan,
    /// This is the address.
    Found(String),
}

/// A [`SearchAction`] with its text taken by its view.
pub ghost enum SearchDuty {
    ReadArpTable,
    Sweep,
    Scan,
    Found(Seq<char>),
}

impl View for SearchAction {
    type V = SearchDuty;

    open spec fn view(&self) -> SearchDuty {
        match self {
            SearchAction::ReadArpTable => SearchDuty::ReadArpTable,
            SearchAction::Sweep => SearchDuty::Sweep,
            SearchAction::Scan => SearchDuty::Scan,
            SearchAction::Found(ip) => SearchDuty::Found(ip@),
        }
    }
}

/// What is to be done in the search for a device with a MAC address, or without a known one.
pub open spec fn searched(mac: Option<Seq<char>>, news: SearchNews) -> SearchDuty {
    let target = match mac {
        Some(s) => mac_of(s),
        None => None,
    };
    match target {
        None => SearchDuty::Scan,
        Some(target) => match news {
            SearchNews::Start => SearchDuty::ReadArpTable,
            SearchNews::ArpTable(table) => match arp_lookup(table, target) {
                Some(ip) => SearchDuty::Found(ip),
                None => SearchDuty::Sweep,
            },
            SearchNews::ArpTableAfterSweep(table) => match arp_lookup(table, target) {
                Some(ip) => SearchDuty::Found(ip),
                None => SearchDuty::Scan,
            },
        },
    }
}

/// A device with a MAC address is scanned for only when it is not in the ARP table, not even
/// after a sweep.
pub proof fn scans_come_last(mac: Seq<char>, target: Seq<u8>, news: SearchNews)
    requires
        mac_of(mac) == Some(target),
        searched(Some(mac), news) == SearchDuty::Scan,
    ensures
        news matches SearchNews::ArpTableAfterSweep(table) && arp_lookup(table, target) is None,
{
}

/// A device whose MAC address is not known is scanned for. Of one with a MAC address the ARP table
/// is read first, and the address that it gives counts; without one the subnet is swept, the table
/// read again, and the device scanned for at last.
pub proof fn searches_go_step_by_step(
    mac: Seq<char>,
    target: Seq<u8>,
    table: Seq<char>,
    news: SearchNews,
)
    ensures
        searched(None, news) == SearchDuty::Scan,
        mac_of(mac) is None ==> searched(Some(mac), news) == SearchDuty::Scan,
        mac_of(mac) == Some(target) ==> searched(Some(mac), SearchNews::Start)
            == SearchDuty::ReadArpTable,
        mac_of(mac) == Some(target) ==> (match arp_lookup(table, target) {
            Some(ip) => searched(Some(mac), SearchNews::ArpTable(table)) == SearchDuty::Found(ip)
                && searched(Some(mac), SearchNews::ArpTableAfterSweep(table)) == SearchDuty::Found(
                ip,
            ),
            None => searched(Some(mac), SearchNews::ArpTable(table)) == SearchDuty::Sweep
                && searched(Some(mac), SearchNews::ArpTableAfterSweep(table)) == SearchDuty::Scan,
        }),
{
}

/// Decides what is to be done in the search for a device.
pub fn discover_device_ip(mac: Option<&str>, event: SearchEvent) -> (r: SearchAction)
    ensures
        r@ == searched(text_view(mac), event@),
{
    let target = match mac {
        Some(s) => match parse_mac(s) {
            Some(t) => t,
            None => {
                return SearchAction::Scan;
            },
        },
        None => {
            return SearchAction::Scan;
        },
    };
    match event {
        SearchEvent::Start => SearchAction::ReadArpTable,
        SearchEvent::ArpTable(table) => match lookup_ip_by_mac(table.as_str(), &target) {
            Some(ip) => SearchAction::Found(ip),
            None => SearchAction::Sweep,
        },
        SearchEvent::ArpTableAfterSweep(table) => match lookup_ip_by_mac(
            table.as_str(),
            &target,
        ) {
            Some(ip) => SearchAction::Found(ip),
            None => SearchAction::Scan,
        },
    }
}

} // verus!
