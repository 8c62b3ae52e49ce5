//! The two message formats on the wire.
//!
//! A 55AA message is prefix, sequence number, command, length, payload, a check (a CRC, or an
//! HMAC in version 3.4) and a suffix. A message that a device sends has a return code in the
//! first four bytes of the payload. A 6699 message is prefix, two reserved bytes, sequence
//! number, command, length, nonce, ciphertext, tag and suffix.

use crate::bytes::{
    append, be32, be32_at, be32_reads_back, begins_with, copy_range, push_be32, read_be32,
    starts_with,
};
use crate::crypto::{
    bytes_view, crc32, crc32_of, gcm_open, gcm_opened, gcm_seal, gcm_sealed, hmac_of, hmac_sha256,
    GCM_MAX,
};
use crate::text::{
    dec, dec_is_ascii, decimal, numbers_are_written_apart, positional, positional_chars, text_of,
};
use vstd::prelude::*;

verus! {

pub const PREFIX_55AA: u32 = 0x000055AA;

pub const SUFFIX_55AA: u32 = 0x0000AA55;

pub const PREFIX_6699: u32 = 0x00006699;

pub const SUFFIX_6699: u32 = 0x00009966;

/// The protocol versions.
#[derive(Clone, Copy, Debug, PartialEq, Eq, Structural)]
pub enum ProtoVer {
    V33,
    V34,
    V35,
}

/// Why a message could not be used.
#[derive(Clone, Copy, Debug, PartialEq, Eq, Structural)]
pub enum ProtocolError {
    KeyTooShort(usize),
    TooShort,
    BadPrefix(u32),
    Truncated { end: u64, len: usize },
    GcmTooShort,
    GcmTruncated,
    GcmFailed,
    ResponseTooShort,
    UnknownPrefix(u32),
    UnexpectedPrefix(u32),
    SessionTooShort(usize),
    HmacMismatch,
}

/// A number in hexadecimal notation, behind `0x`.
pub open spec fn hex(n: u32) -> Seq<char> {
    "0x"@ + positional(n as nat, 16)
}

fn hexadecimal(n: u32) -> (r: String)
    ensures
        r@ == hex(n),
{
    let mut out = "0x".to_string();
    out.append(text_of(positional_chars(n as u64, 16).as_slice()).as_str());
    out
}

impl ProtocolError {
    /// The sentence for this error.
    pub open spec fn sentence(self) -> Seq<char> {
        match self {
            ProtocolError::KeyTooShort(n) => "local_key must be at least 16 bytes, got "@ + dec(
                n as nat,
            ),
            ProtocolError::TooShort => "message too short"@,
            ProtocolError::BadPrefix(p) => "bad prefix: "@ + hex(p),
            ProtocolError::Truncated { end, len } => "truncated: end="@ + dec(end as nat)
                + " len="@ + dec(len as nat),
            ProtocolError::GcmTooShort => "6699 message too short"@,
            ProtocolError::GcmTruncated => "6699 message truncated"@,
            ProtocolError::GcmFailed => "GCM decrypt failed: aead::Error"@,
            ProtocolError::ResponseTooShort => "response too short"@,
            ProtocolError::UnknownPrefix(p) => "unknown prefix: "@ + hex(p),
            ProtocolError::UnexpectedPrefix(p) => "unexpected prefix: "@ + hex(p),
            ProtocolError::SessionTooShort(n) => "session response too short: "@ + dec(n as nat)
                + " bytes"@,
            ProtocolError::HmacMismatch => "HMAC verification of local_nonce failed"@,
        }
    }

    /// Says what is wrong.
    pub fn message(&self) -> (r: String)
        ensures
            r@ == self.sentence(),
    {
        match self {
            ProtocolError::KeyTooShort(n) => {
                let mut out = "local_key must be at least 16 bytes, got ".to_string();
                out.append(decimal(*n as u64).as_str());
                out
            },
            ProtocolError::TooShort => "message too short".to_string(),
            ProtocolError::BadPrefix(p) => {
                let mut out = "bad prefix: ".to_string();
                out.append(hexadecimal(*p).as_str());
                out
            },
            ProtocolError::Truncated { end, len } => {
                let mut out = "truncated: end=".to_string();
                out.append(decimal(*end).as_str());
                out.append(" len=");
                out.append(decimal(*len as u64).as_str());
                out
            },
            ProtocolError::GcmTooShort => "6699 message too short".to_string(),
            ProtocolError::GcmTruncated => "6699 message truncated".to_string(),
            ProtocolError::GcmFailed => "GCM decrypt failed: aead::Error".to_string(),
            ProtocolError::ResponseTooShort => "response too short".to_string(),
            ProtocolError::UnknownPrefix(p) => {
                let mut out = "unknown prefix: ".to_string();
                out.append(hexadecimal(*p).as_str());
                out
            },
            ProtocolError::UnexpectedPrefix(p) => {
                let mut out = "unexpected prefix: ".to_string();
                out.append(hexadecimal(*p).as_str());
                out
            },
            ProtocolError::SessionTooShort(n) => {
                let mut out = "session response too short: ".to_string();
                out.append(decimal(*n as u64).as_str());
                out.append(" bytes");
                out
            },
            ProtocolError::HmacMismatch => "HMAC verification of local_nonce failed".to_string(),
        }
    }
}

/// The sentences for errors end with the number that they speak of, prefixes in hexadecimal
/// notation behind `0x`, lengths in decimal notation.
pub proof fn sentences_give_their_numbers(p: u32, end: u64, n: usize)
    ensures
        ProtocolError::BadPrefix(p).sentence() == "bad prefix: "@ + ("0x"@ + positional(
            p as nat,
            16,
        )),
        ProtocolError::UnknownPrefix(p).sentence() == "unknown prefix: "@ + ("0x"@ + positional(
            p as nat,
            16,
        )),
        ProtocolError::UnexpectedPrefix(p).sentence() == "unexpected prefix: "@ + ("0x"@
            + positional(p as nat, 16)),
        ProtocolError::KeyTooShort(n).sentence() == "local_key must be at least 16 bytes, got "@
            + dec(n as nat),
        ProtocolError::SessionTooShort(n).sentence() == "session response too short: "@ + dec(
            n as nat,
        ) + " bytes"@,
        (ProtocolError::Truncated { end, len: n }).sentence() == "truncated: end="@ + dec(end as nat)
            + (" len="@ + dec(n as nat)),
{
    assert(("truncated: end="@ + dec(end as nat)) + " len="@ + dec(n as nat) =~= "truncated: end="@
        + dec(end as nat) + (" len="@ + dec(n as nat)));
}

// ── What a receiver finds ──

/// The number, the command and the payload that the holder of the key finds in a message, byte by
/// byte: prefix and suffix mark the ends, the length field counts what follows it, and the check
/// covers what stands before it. Nothing where one of these is wrong.
pub open spec fn unframed(version: ProtoVer, key: Seq<u8>, msg: Seq<u8>) -> Option<
    (u32, u32, Seq<u8>),
> {
    let n = msg.len() as int;
    match version {
        ProtoVer::V33 => if n >= 24 && be32_at(msg, 0) == 0x000055aa && be32_at(msg, 12) == n - 16
            && be32_at(msg, n - 8) == crc32_of(msg.take(n - 8)) && be32_at(msg, n - 4)
            == 0x0000aa55 {
            Some((be32_at(msg, 4), be32_at(msg, 8), msg.subrange(16, n - 8)))
        } else {
            None
        },
        ProtoVer::V34 => if n >= 52 && be32_at(msg, 0) == 0x000055aa && be32_at(msg, 12) == n - 16
            && msg.subrange(n - 36, n - 4) == hmac_of(key, msg.take(n - 36)) && be32_at(msg, n - 4)
            == 0x0000aa55 {
            Some((be32_at(msg, 4), be32_at(msg, 8), msg.subrange(16, n - 36)))
        } else {
            None
        },
        ProtoVer::V35 => if n >= 50 && be32_at(msg, 0) == 0x00006699 && msg[4] == 0 && msg[5] == 0
            && be32_at(msg, 14) == n - 22 && be32_at(msg, n - 4) == 0x00009966 {
            match gcm_opened(
                key,
                msg.subrange(18, 30),
                msg.subrange(4, 18),
                msg.subrange(30, n - 20),
                msg.subrange(n - 20, n - 4),
            ) {
                Some(plain) => Some((be32_at(msg, 6), be32_at(msg, 10), plain)),
                None => None,
            }
        } else {
            None
        },
    }
}

/// Who has the key finds in a 55AA message what was put into it.
pub proof fn built_55aa_unframes(
    version: ProtoVer,
    seq: u32,
    cmd: u32,
    payload: Seq<u8>,
    hmac_key: Seq<u8>,
)
    requires
        version != ProtoVer::V35,
        payload.len() + 36 <= u32::MAX,
        frame_55aa(version, seq, cmd, payload, hmac_key).len() == payload.len() + (if version
            == ProtoVer::V34 {
            52int
        } else {
            24
        }),
    ensures
        unframed(version, hmac_key, frame_55aa(version, seq, cmd, payload, hmac_key)) == Some(
            (seq, cmd, payload),
        ),
{
    let f = frame_55aa(version, seq, cmd, payload, hmac_key);
    let n = f.len() as int;
    let checked = checked_55aa(version, seq, cmd, payload);
    let length = ((payload.len() as u32) + trailer_len(version)) as u32;
    assert(f.subrange(0, 4) =~= be32(PREFIX_55AA));
    assert(f.subrange(4, 8) =~= be32(seq));
    assert(f.subrange(8, 12) =~= be32(cmd));
    assert(f.subrange(12, 16) =~= be32(length));
    assert(f.subrange(n - 4, n) =~= be32(SUFFIX_55AA));
    be32_reads_back(f, 0, PREFIX_55AA);
    be32_reads_back(f, 4, seq);
    be32_reads_back(f, 8, cmd);
    be32_reads_back(f, 12, length);
    be32_reads_back(f, n - 4, SUFFIX_55AA);
    assert(f.take(16 + payload.len() as int) =~= checked);
    assert(f.subrange(16, 16 + payload.len() as int) =~= payload);
    if version == ProtoVer::V34 {
        assert(f.subrange(n - 36, n - 4) =~= hmac_of(hmac_key, checked));
    } else {
        assert(f.subrange(n - 8, n - 4) =~= be32(crc32_of(checked)));
        be32_reads_back(f, n - 8, crc32_of(checked));
    }
}

/// Who has the key finds in a 6699 message what was put into it.
pub proof fn built_6699_unframes(
    seq: u32,
    cmd: u32,
    payload: Seq<u8>,
    key: Seq<u8>,
    nonce: Seq<u8>,
)
    requires
        nonce.len() == 12,
        payload.len() + 28 <= u32::MAX,
        frame_6699(seq, cmd, payload, key, nonce).len() == payload.len() + 50,
        reads_as_6699(frame_6699(seq, cmd, payload, key, nonce), key, cmd, payload),
    ensures
        unframed(ProtoVer::V35, key, frame_6699(seq, cmd, payload, key, nonce)) == Some(
            (seq, cmd, payload),
        ),
        frame_6699(seq, cmd, payload, key, nonce).subrange(18, 30) == nonce,
{
    let f = frame_6699(seq, cmd, payload, key, nonce);
    let n = f.len() as int;
    assert(f.subrange(6, 10) =~= be32(seq));
    assert(f.subrange(n - 4, n) =~= be32(SUFFIX_6699));
    be32_reads_back(f, 6, seq);
    be32_reads_back(f, n - 4, SUFFIX_6699);
    assert(f[4] == 0 && f[5] == 0);
    assert(f.subrange(18, 30) =~= nonce);
}

// ── 55AA ──

/// How many bytes follow the payload of a 55AA message.
pub open spec fn trailer_len(version: ProtoVer) -> nat {
    if version == ProtoVer::V34 {
        36
    } else {
        8
    }
}

/// The part of a 55AA message that its check covers.
pub open spec fn checked_55aa(version: ProtoVer, seq: u32, cmd: u32, payload: Seq<u8>) -> Seq<u8> {
    be32(PREFIX_55AA) + be32(seq) + be32(cmd) + be32(
        ((payload.len() as u32) + trailer_len(version)) as u32,
    ) + payload
}

/// A 55AA message.
pub open spec fn frame_55aa(
    version: ProtoVer,
    seq: u32,
    cmd: u32,
    payload: Seq<u8>,
    hmac_key: Seq<u8>,
) -> Seq<u8> {
    let checked = checked_55aa(version, seq, cmd, payload);
    checked + (if version == ProtoVer::V34 {
        hmac_of(hmac_key, checked)
    } else {
        be32(crc32_of(checked))
    }) + be32(SUFFIX_55AA)
}

/// What can be put into a 55AA message: the length field holds the length of the payload and of
/// what follows it.
pub open spec fn fits_55aa(version: ProtoVer, payload: Seq<u8>) -> bool {
    (payload.len() as u32) + trailer_len(version) <= u32::MAX
}

/// Builds a 55AA message.
pub fn build_55aa(version: ProtoVer, seq: u32, cmd: u32, payload: &[u8], hmac_key: &[u8; 16]) -> (r:
    Vec<u8>)
    requires
        fits_55aa(version, payload@),
    ensures
        r@ == frame_55aa(version, seq, cmd, payload@, hmac_key@),
        r@.len() == 16 + payload@.len() + trailer_len(version),
        version != ProtoVer::V35 && payload@.len() + 36 <= u32::MAX ==> unframed(
            version,
            hmac_key@,
            r@,
        ) == Some((seq, cmd, payload@)),
{
    let use_hmac: bool = version == ProtoVer::V34;
    let suffix_len: u32 = if use_hmac {
        36
    } else {
        8
    };
    let length: u32 = payload.len() as u32 + suffix_len;
    let mut msg: Vec<u8> = Vec::new();
    push_be32(&mut msg, PREFIX_55AA);
    push_be32(&mut msg, seq);
    push_be32(&mut msg, cmd);
    push_be32(&mut msg, length);
    append(&mut msg, payload);
    assert(msg@ =~= checked_55aa(version, seq, cmd, payload@));
    if use_hmac {
        let hmac = hmac_sha256(hmac_key.as_slice(), msg.as_slice());
        append(&mut msg, hmac.as_slice());
    } else {
        let crc: u32 = crc32(msg.as_slice());
        push_be32(&mut msg, crc);
    }
    push_be32(&mut msg, SUFFIX_55AA);
    proof {
        if version != ProtoVer::V35 && payload@.len() + 36 <= u32::MAX {
            built_55aa_unframes(version, seq, cmd, payload@, hmac_key@);
        }
    }
    msg
}

/// What a 55AA message of a device holds: the command, and the payload behind the return code.
pub open spec fn read_55aa(version: ProtoVer, data: Seq<u8>) -> Result<
    (u32, Seq<u8>),
    ProtocolError,
> {
    let length = be32_at(data, 12) as int;
    let end = 16 + (if length < trailer_len(version) {
        0
    } else {
        length - trailer_len(version)
    });
    if data.len() < 20 {
        Err(ProtocolError::TooShort)
    } else if be32_at(data, 0) != PREFIX_55AA {
        Err(ProtocolError::BadPrefix(be32_at(data, 0)))
    } else if end > data.len() {
        Err(ProtocolError::Truncated { end: end as u64, len: data.len() as usize })
    } else if end < 20 {
        Ok((be32_at(data, 8), Seq::empty()))
    } else {
        Ok((be32_at(data, 8), data.subrange(20, end)))
    }
}

/// A result of reading a message, with its bytes taken by their view.
pub open spec fn read_view(r: Result<(u32, Vec<u8>), ProtocolError>) -> Result<
    (u32, Seq<u8>),
    ProtocolError,
> {
    match r {
        Ok((cmd, payload)) => Ok((cmd, payload@)),
        Err(e) => Err(e),
    }
}

/// Reads a 55AA message of a device.
pub fn parse_55aa(version: ProtoVer, data: &[u8]) -> (r: Result<(u32, Vec<u8>), ProtocolError>)
    ensures
        read_view(r) == read_55aa(version, data@),
{
    if data.len() < 20 {
        return Err(ProtocolError::TooShort);
    }
    let prefix: u32 = read_be32(data, 0);
    if prefix != PREFIX_55AA {
        return Err(ProtocolError::BadPrefix(prefix));
    }
    let cmd: u32 = read_be32(data, 8);
    let length: u64 = read_be32(data, 12) as u64;
    let suffix_size: u64 = if version == ProtoVer::V34 {
        36
    } else {
        8
    };
    let payload_len: u64 = if length < suffix_size {
        0
    } else {
        length - suffix_size
    };
    let payload_end: u64 = 16 + payload_len;
    if payload_end > data.len() as u64 {
        return Err(ProtocolError::Truncated { end: payload_end, len: data.len() });
    }
    let payload: Vec<u8> = if 20 <= payload_end {
        copy_range(data, 20, payload_end as usize)
    } else {
        Vec::new()
    };
    Ok((cmd, payload))
}

/// A 55AA message reads back as its command and its payload behind the first four bytes, where
/// a device puts its return code.
pub proof fn built_55aa_reads_back(
    version: ProtoVer,
    seq: u32,
    cmd: u32,
    payload: Seq<u8>,
    hmac_key: Seq<u8>,
)
    requires
        payload.len() + trailer_len(version) <= u32::MAX,
    ensures
        read_55aa(version, frame_55aa(version, seq, cmd, payload, hmac_key)) == Ok::<
            (u32, Seq<u8>),
            ProtocolError,
        >(
            (
                cmd,
                if payload.len() < 4 {
                    Seq::empty()
                } else {
                    payload.skip(4)
                },
            ),
        ),
        frame_55aa(version, seq, cmd, payload, hmac_key).subrange(16, 16 + payload.len() as int)
            == payload,
{
    let f = frame_55aa(version, seq, cmd, payload, hmac_key);
    let length = ((payload.len() as u32) + trailer_len(version)) as u32;
    assert(f.subrange(0, 4) =~= be32(PREFIX_55AA));
    assert(f.subrange(8, 12) =~= be32(cmd));
    assert(f.subrange(12, 16) =~= be32(length));
    be32_reads_back(f, 0, PREFIX_55AA);
    be32_reads_back(f, 8, cmd);
    be32_reads_back(f, 12, length);
    assert(f.subrange(16, 16 + payload.len() as int) =~= payload);
    if payload.len() >= 4 {
        assert(f.subrange(20, 16 + payload.len() as int) =~= payload.skip(4));
    }
}

/// What stands behind a 55AA message does not matter, and a message that is cut off before the
/// end of its payload is refused.
pub proof fn cut_55aa_is_refused(
    version: ProtoVer,
    seq: u32,
    cmd: u32,
    payload: Seq<u8>,
    hmac_key: Seq<u8>,
    more: Seq<u8>,
    k: int,
)
    requires
        payload.len() >= 4,
        payload.len() + trailer_len(version) <= u32::MAX,
        0 <= k < 16 + payload.len(),
    ensures
        ({
            let f = frame_55aa(version, seq, cmd, payload, hmac_key);
            &&& read_55aa(version, f + more) == Ok::<(u32, Seq<u8>), ProtocolError>(
                (cmd, payload.skip(4)),
            )
            &&& k < 20 ==> read_55aa(version, f.take(k)) == Err::<(u32, Seq<u8>), ProtocolError>(
                ProtocolError::TooShort,
            )
            &&& k >= 20 ==> (read_55aa(version, f.take(k)) matches Err(
                ProtocolError::Truncated { end, .. },
            ) && end == 16 + payload.len())
        }),
{
    let f = frame_55aa(version, seq, cmd, payload, hmac_key);
    let p = payload.len() as int;
    let length = ((payload.len() as u32) + trailer_len(version)) as u32;
    assert(f.subrange(0, 4) =~= be32(PREFIX_55AA));
    assert(f.subrange(8, 12) =~= be32(cmd));
    assert(f.subrange(12, 16) =~= be32(length));
    assert(f.subrange(20, 16 + p) =~= payload.skip(4));
    be32_reads_back(f, 0, PREFIX_55AA);
    be32_reads_back(f, 8, cmd);
    be32_reads_back(f, 12, length);
    cut_or_longer_55aa(version, f, cmd, p, more, k);
}

proof fn cut_or_longer_55aa(
    version: ProtoVer,
    f: Seq<u8>,
    cmd: u32,
    p: int,
    more: Seq<u8>,
    k: int,
)
    requires
        p >= 4,
        f.len() >= 16 + p,
        be32_at(f, 0) == PREFIX_55AA,
        be32_at(f, 8) == cmd,
        be32_at(f, 12) == p + trailer_len(version),
        0 <= k < 16 + p,
    ensures
        read_55aa(version, f + more) == Ok::<(u32, Seq<u8>), ProtocolError>(
            (cmd, f.subrange(20, 16 + p)),
        ),
        k < 20 ==> read_55aa(version, f.take(k)) == Err::<(u32, Seq<u8>), ProtocolError>(
            ProtocolError::TooShort,
        ),
        k >= 20 ==> (read_55aa(version, f.take(k)) matches Err(
            ProtocolError::Truncated { end, .. },
        ) && end == 16 + p),
{
    let long = f + more;
    assert(be32_at(long, 0) == be32_at(f, 0));
    assert(be32_at(long, 8) == be32_at(f, 8));
    assert(be32_at(long, 12) == be32_at(f, 12));
    assert(long.subrange(20, 16 + p) =~= f.subrange(20, 16 + p));
    if k >= 20 {
        let short = f.take(k);
        assert(be32_at(short, 0) == be32_at(f, 0));
        assert(be32_at(short, 12) == be32_at(f, 12));
    }
}

/// A 55AA message whose length field leaves no room for a payload has none.
pub proof fn short_lengths_mean_no_payload(version: ProtoVer, data: Seq<u8>)
    requires
        data.len() >= 20,
        data.take(4) == seq![0u8, 0u8, 0x55u8, 0xaau8],
        be32_at(data, 12) < 4 + (if version == ProtoVer::V34 {
            36int
        } else {
            8
        }),
    ensures
        read_55aa(version, data) == Ok::<(u32, Seq<u8>), ProtocolError>(
            (be32_at(data, 8), Seq::empty()),
        ),
{
    let start = data.take(4);
    assert(start[0] == data[0] && start[1] == data[1] && start[2] == data[2] && start[3]
        == data[3]);
}

/// Bytes that do not start with the prefix of the 55AA format are refused for it.
pub proof fn other_prefixes_are_refused(version: ProtoVer, data: Seq<u8>, key: Seq<u8>)
    requires
        data.len() >= 22,
    ensures
        data.take(4) != seq![0u8, 0u8, 0x55u8, 0xaau8] ==> read_55aa(version, data) == Err::<
            (u32, Seq<u8>),
            ProtocolError,
        >(ProtocolError::BadPrefix(be32_at(data, 0))),
        data.take(4) != seq![0u8, 0u8, 0x66u8, 0x99u8] ==> read_6699(data, key) == Err::<
            (u32, Seq<u8>),
            ProtocolError,
        >(ProtocolError::BadPrefix(be32_at(data, 0))),
{
    let start = data.take(4);
    assert(start[0] == data[0] && start[1] == data[1] && start[2] == data[2] && start[3]
        == data[3]);
    if be32_at(data, 0) == 0x55aa {
        assert(start =~= seq![0u8, 0u8, 0x55u8, 0xaau8]);
    }
    if be32_at(data, 0) == 0x6699 {
        assert(start =~= seq![0u8, 0u8, 0x66u8, 0x99u8]);
    }
}

// ── 6699 ──

/// The header of a 6699 message.
pub open spec fn header_6699(seq: u32, cmd: u32, length: u32) -> Seq<u8> {
    be32(PREFIX_6699) + seq![0u8, 0u8] + be32(seq) + be32(cmd) + be32(length)
}

/// A 6699 message.
pub open spec fn frame_6699(
    seq: u32,
    cmd: u32,
    payload: Seq<u8>,
    key: Seq<u8>,
    nonce: Seq<u8>,
) -> Seq<u8> {
    let header = header_6699(seq, cmd, ((payload.len() as u32) + 28) as u32);
    let sealed = gcm_sealed(key, nonce, header.subrange(4, 18), payload);
    header + nonce + sealed.0 + sealed.1 + be32(SUFFIX_6699)
}

/// The seal of a 6699 message covers its header but for the prefix: what stands in the bytes 4 to 17
/// goes into the seal as it goes over the line.
pub proof fn seals_cover_the_header(
    seq: u32,
    cmd: u32,
    payload: Seq<u8>,
    key: Seq<u8>,
    nonce: Seq<u8>,
)
    ensures
        ({
            let f = frame_6699(seq, cmd, payload, key, nonce);
            let sealed = gcm_sealed(key, nonce, f.subrange(4, 18), payload);
            f.len() >= 18 && f.skip(18) == nonce + sealed.0 + sealed.1 + seq![
                0u8,
                0u8,
                0x99u8,
                0x66u8,
            ]
        }),
{
    let f = frame_6699(seq, cmd, payload, key, nonce);
    let header = header_6699(seq, cmd, ((payload.len() as u32) + 28) as u32);
    assert(header.len() == 18);
    assert(f.subrange(4, 18) =~= header.subrange(4, 18));
    let sealed = gcm_sealed(key, nonce, f.subrange(4, 18), payload);
    assert(be32(SUFFIX_6699) =~= seq![0u8, 0u8, 0x99u8, 0x66u8]);
    assert(f.skip(18) =~= nonce + sealed.0 + sealed.1 + be32(SUFFIX_6699));
}

/// What can be put into a 6699 message.
pub open spec fn fits_6699(payload: Seq<u8>) -> bool {
    (payload.len() as u32) + 28 <= u32::MAX && payload.len() <= GCM_MAX
}

/// The bytes of a text of ASCII characters.
pub open spec fn ascii(s: Seq<char>) -> Seq<u8> {
    Seq::new(s.len(), |i: int| s[i] as u8)
}

/// The nonce for a moment: the first twelve decimal digits of the clock, filled up with zero
/// bytes.
pub open spec fn clock_nonce(ticks: u64) -> Seq<u8> {
    let digits = ascii(dec(ticks as nat));
    Seq::new(
        12,
        |i: int|
            if i < digits.len() {
                digits[i]
            } else {
                0u8
            },
    )
}

/// The nonce for a moment spells its decimal digits, as far as twelve bytes go, and the rest is
/// zero: moments with at most twelve digits have nonces of their own.
pub proof fn nonces_spell_the_moment(ticks: u64, other: u64)
    ensures
        clock_nonce(ticks).len() == 12,
        forall|i: int|
            0 <= i < 12 ==> #[trigger] clock_nonce(ticks)[i] == (if i < dec(ticks as nat).len() {
                dec(ticks as nat)[i] as u8
            } else {
                0u8
            }),
        dec(ticks as nat).len() <= 12 && dec(other as nat).len() <= 12 && ticks != other
            ==> clock_nonce(ticks) != clock_nonce(other),
{
    let (a, b) = (dec(ticks as nat), dec(other as nat));
    let (x, y) = (clock_nonce(ticks), clock_nonce(other));
    dec_is_ascii(ticks as nat);
    dec_is_ascii(other as nat);
    if a.len() <= 12 && b.len() <= 12 && ticks != other && x == y {
        if a.len() < b.len() {
            assert(x[a.len() as int] == 0 && y[a.len() as int] == b[a.len() as int] as u8);
        } else if b.len() < a.len() {
            assert(y[b.len() as int] == 0 && x[b.len() as int] == a[b.len() as int] as u8);
        }
        assert forall|i: int| 0 <= i < a.len() implies a[i] == b[i] by {
            assert(x[i] == a[i] as u8 && y[i] == b[i] as u8);
        }
        assert(a =~= b);
        numbers_are_written_apart(ticks as nat, other as nat);
    }
}

/// Makes the nonce for a moment, counted in tenths of a second.
pub fn nonce_at(ticks: u64) -> (r: Vec<u8>)
    ensures
        r@ == clock_nonce(ticks),
        r@.len() == 12,
{
    let digits = positional_chars(ticks, 10);
    proof {
        dec_is_ascii(ticks as nat);
    }
    let mut out: Vec<u8> = Vec::new();
    let mut i: usize = 0;
    while i < 12
        invariant
            i <= 12,
            digits@ == dec(ticks as nat),
            forall|k: int| 0 <= k < digits@.len() ==> '0' <= #[trigger] digits@[k] <= '9',
            out@ =~= clock_nonce(ticks).take(i as int),
        decreases 12 - i,
    {
        let b: u8 = if i < digits.len() {
            digits[i] as u8
        } else {
            0
        };
        out.push(b);
        i = i + 1;
    }
    out
}

/// Builds a 6699 message.
pub fn build_6699(seq: u32, cmd: u32, payload: &[u8], key: &[u8; 16], nonce: &[u8]) -> (r: Vec<u8>)
    requires
        fits_6699(payload@),
        nonce@.len() == 12,
    ensures
        r@ == frame_6699(seq, cmd, payload@, key@, nonce@),
        r@.len() == payload@.len() + 50,
        payload@.len() + 28 <= u32::MAX ==> reads_as_6699(r@, key@, cmd, payload@),
        payload@.len() + 28 <= u32::MAX ==> unframed(ProtoVer::V35, key@, r@) == Some(
            (seq, cmd, payload@),
        ),
{
    let length: u32 = payload.len() as u32 + 28;
    let mut header: Vec<u8> = Vec::new();
    push_be32(&mut header, PREFIX_6699);
    header.push(0);
    header.push(0);
    push_be32(&mut header, seq);
    push_be32(&mut header, cmd);
    push_be32(&mut header, length);
    assert(header@ =~= header_6699(seq, cmd, length));
    let aad = copy_range(header.as_slice(), 4, 18);
    let (buffer, tag) = gcm_seal(key, nonce, aad.as_slice(), payload);
    let mut msg = header;
    append(&mut msg, nonce);
    append(&mut msg, buffer.as_slice());
    append(&mut msg, tag.as_slice());
    push_be32(&mut msg, SUFFIX_6699);
    proof {
        if payload@.len() + 28 <= u32::MAX {
            let n = payload@.len() as int;
            assert(length == n + 28);
            assert(msg@.subrange(0, 4) =~= be32(PREFIX_6699));
            assert(msg@.subrange(10, 14) =~= be32(cmd));
            assert(msg@.subrange(14, 18) =~= be32(length));
            be32_reads_back(msg@, 0, PREFIX_6699);
            be32_reads_back(msg@, 10, cmd);
            be32_reads_back(msg@, 14, length);
            assert(msg@.subrange(18, 30) =~= nonce@);
            assert(msg@.subrange(4, 18) =~= aad@);
            assert(msg@.subrange(30, 30 + n) =~= buffer@);
            assert(msg@.subrange(30 + n, 46 + n) =~= tag@);
            built_6699_unframes(seq, cmd, payload@, key@, nonce@);
        }
    }
    msg
}

/// The text `3.5` with which the plaintext of version 3.5 may start.
pub open spec fn tag_35() -> Seq<u8> {
    seq![0x33u8, 0x2eu8, 0x35u8]
}

/// The plaintext of a 6699 message without its version header and return code.
pub open spec fn stripped_6699(plain: Seq<u8>) -> Seq<u8> {
    if plain.len() >= 15 && begins_with(plain, tag_35()) {
        let rest = plain.skip(15);
        if rest.len() >= 4 && rest[0] != 0x7b {
            rest.skip(4)
        } else {
            rest
        }
    } else if plain.len() > 4 && plain[0] != 0x7b {
        plain.skip(4)
    } else {
        plain
    }
}

/// Takes version header and return code off a plaintext.
pub fn strip_6699(plain: Vec<u8>) -> (r: Vec<u8>)
    ensures
        r@ == stripped_6699(plain@),
{
    let tag: [u8; 3] = [0x33, 0x2e, 0x35];
    assert(tag@ =~= tag_35());
    if plain.len() >= 15 && starts_with(plain.as_slice(), tag.as_slice()) {
        if plain.len() >= 19 && plain[15] != 0x7b {
            assert(plain@.skip(15).skip(4) =~= plain@.subrange(19, plain@.len() as int));
            copy_range(plain.as_slice(), 19, plain.len())
        } else {
            assert(plain@.skip(15) =~= plain@.subrange(15, plain@.len() as int));
            copy_range(plain.as_slice(), 15, plain.len())
        }
    } else if plain.len() > 4 && plain[0] != 0x7b {
        assert(plain@.skip(4) =~= plain@.subrange(4, plain@.len() as int));
        copy_range(plain.as_slice(), 4, plain.len())
    } else {
        plain
    }
}

/// Whether a complete 6699 message has room for nonce and tag.
pub open spec fn roomy_6699(data: Seq<u8>) -> bool {
    data.len() >= 22 && be32_at(data, 0) == PREFIX_6699 && 22 + be32_at(data, 14) <= data.len()
        ==> be32_at(data, 14) >= 28
}

/// A message has no room exactly where it is complete by its length field, and that leaves less
/// than the 28 bytes of nonce and tag.
pub proof fn cramped_messages_are_complete(data: Seq<u8>)
    ensures
        !roomy_6699(data) <==> data.len() >= 22 && be32_at(data, 0) == 0x6699 && be32_at(data, 14)
            + 22 <= data.len() && be32_at(data, 14) < 28,
{
}

/// Decides [`roomy_6699`].
pub fn has_room_6699(data: &[u8]) -> (r: bool)
    ensures
        r == roomy_6699(data@),
{
    if data.len() >= 22 && read_be32(data, 0) == PREFIX_6699 {
        let length: u64 = read_be32(data, 14) as u64;
        22 + length > data.len() as u64 || length >= 28
    } else {
        true
    }
}

/// The plaintext inside a complete 6699 message.
pub open spec fn plain_6699(data: Seq<u8>, key: Seq<u8>) -> Option<Seq<u8>> {
    let end = 18 + be32_at(data, 14);
    gcm_opened(
        key,
        data.subrange(18, 30),
        data.subrange(4, 18),
        data.subrange(30, end - 16),
        data.subrange(end - 16, end),
    )
}

/// Whether a message is a complete 6699 message with a command and a plaintext.
pub open spec fn reads_as_6699(data: Seq<u8>, key: Seq<u8>, cmd: u32, plain: Seq<u8>) -> bool {
    &&& data.len() == 22 + be32_at(data, 14)
    &&& be32_at(data, 0) == PREFIX_6699
    &&& be32_at(data, 10) == cmd
    &&& be32_at(data, 14) == plain.len() + 28
    &&& plain_6699(data, key) == Some(plain)
}

/// What a 6699 message holds: the command, and the payload behind version header and return
/// code.
pub open spec fn read_6699(data: Seq<u8>, key: Seq<u8>) -> Result<(u32, Seq<u8>), ProtocolError> {
    if data.len() < 22 {
        Err(ProtocolError::GcmTooShort)
    } else if be32_at(data, 0) != PREFIX_6699 {
        Err(ProtocolError::BadPrefix(be32_at(data, 0)))
    } else if 22 + be32_at(data, 14) > data.len() {
        Err(ProtocolError::GcmTruncated)
    } else {
        match plain_6699(data, key) {
            None => Err(ProtocolError::GcmFailed),
            Some(plain) => Ok((be32_at(data, 10), stripped_6699(plain))),
        }
    }
}

/// What was sealed into a 6699 message is read from it, without version header and return code;
/// what stands behind the message does not matter, and a message that was cut off is refused.
pub proof fn whole_6699_is_read(
    msg: Seq<u8>,
    key: Seq<u8>,
    seq: u32,
    cmd: u32,
    plain: Seq<u8>,
    more: Seq<u8>,
    k: int,
)
    requires
        unframed(ProtoVer::V35, key, msg) == Some((seq, cmd, plain)),
        0 <= k < msg.len(),
    ensures
        read_6699(msg + more, key) == Ok::<(u32, Seq<u8>), ProtocolError>(
            (cmd, stripped_6699(plain)),
        ),
        read_6699(msg.take(k), key) == Err::<(u32, Seq<u8>), ProtocolError>(
            if k < 22 {
                ProtocolError::GcmTooShort
            } else {
                ProtocolError::GcmTruncated
            },
        ),
{
    let long = msg + more;
    let n = msg.len() as int;
    assert(be32_at(long, 0) == be32_at(msg, 0));
    assert(be32_at(long, 10) == be32_at(msg, 10));
    assert(be32_at(long, 14) == be32_at(msg, 14));
    assert(long.subrange(18, 30) =~= msg.subrange(18, 30));
    assert(long.subrange(4, 18) =~= msg.subrange(4, 18));
    assert(long.subrange(30, n - 20) =~= msg.subrange(30, n - 20));
    assert(long.subrange(n - 20, n - 4) =~= msg.subrange(n - 20, n - 4));
    if k >= 22 {
        let short = msg.take(k);
        assert(be32_at(short, 0) == be32_at(msg, 0));
        assert(be32_at(short, 14) == be32_at(msg, 14));
    }
}

/// A return code of four bytes that does not look like an object comes off the plaintext, with a
/// version header before it or without; an object stays as it is.
pub proof fn return_codes_come_off(code: Seq<u8>, filler: Seq<u8>, text: Seq<u8>)
    requires
        code.len() == 4,
        code[0] != 0x7b,
        filler.len() == 12,
    ensures
        text.len() > 0 && !begins_with(code + text, seq![0x33u8, 0x2eu8, 0x35u8]) ==> stripped_6699(
            code + text,
        ) == text,
        stripped_6699(seq![0x33u8, 0x2eu8, 0x35u8] + filler + code + text) == text,
        text.len() > 0 && text[0] == 0x7b ==> stripped_6699(text) == text && stripped_6699(
            seq![0x33u8, 0x2eu8, 0x35u8] + filler + text,
        ) == text,
        stripped_6699(code) == code,
        text.len() <= 4 ==> stripped_6699(text) == text,
{
    let tag = seq![0x33u8, 0x2eu8, 0x35u8];
    assert(tag =~= tag_35());
    let coded = code + text;
    assert(coded.skip(4) =~= text);
    let headed = tag + filler + code + text;
    assert(headed.take(3) =~= tag);
    assert(headed.skip(15) =~= coded);
    let plain = tag + filler + text;
    assert(plain.take(3) =~= tag);
    assert(plain.skip(15) =~= text);
    if text.len() > 0 && text[0] == 0x7b {
        if begins_with(text, tag_35()) {
            assert(text.take(3)[0] == text[0]);
        }
    }
}

/// Opens a complete 6699 message.
pub fn open_6699(data: &[u8], key: &[u8; 16]) -> (r: Option<Vec<u8>>)
    requires
        22 + be32_at(data@, 14) <= data@.len(),
        be32_at(data@, 14) >= 28,
    ensures
        bytes_view(r) == plain_6699(data@, key@),
        r matches Some(plain) ==> plain@.len() + 28 == be32_at(data@, 14),
{
    let total: usize = data.len();
    let length: usize = read_be32(data, 14) as usize;
    assert(22 + length <= total);
    let end: usize = 18 + length;
    let iv = vstd::slice::slice_subrange(data, 18, 30);
    let aad = vstd::slice::slice_subrange(data, 4, 18);
    let ct = vstd::slice::slice_subrange(data, 30, end - 16);
    let tag = vstd::slice::slice_subrange(data, end - 16, end);
    gcm_open(key, iv, aad, ct, tag)
}

/// Reads a 6699 message.
pub fn parse_6699(data: &[u8], key: &[u8; 16]) -> (r: Result<(u32, Vec<u8>), ProtocolError>)
    requires
        roomy_6699(data@),
    ensures
        read_view(r) == read_6699(data@, key@),
{
    if data.len() < 22 {
        return Err(ProtocolError::GcmTooShort);
    }
    let prefix: u32 = read_be32(data, 0);
    if prefix != PREFIX_6699 {
        return Err(ProtocolError::BadPrefix(prefix));
    }
    let cmd: u32 = read_be32(data, 10);
    let length: u64 = read_be32(data, 14) as u64;
    if 22 + length > data.len() as u64 {
        return Err(ProtocolError::GcmTruncated);
    }
    match open_6699(data, key) {
        None => Err(ProtocolError::GcmFailed),
        Some(plain) => Ok((cmd, strip_6699(plain))),
    }
}

} // verus!
