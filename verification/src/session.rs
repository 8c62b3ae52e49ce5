//! The negotiation of a session key, in versions 3.4 and 3.5.
//!
//! The local side sends a nonce. The device answers with a nonce of its own and an HMAC of the
//! first one. The local side sends an HMAC of the second one, and both sides derive the key of
//! the session from the two nonces.

use crate::bytes::{be32_at, copy_range, first_16, read_be32, same_bytes};
use crate::crypto::{
    aes_block, aes_ecb_decrypt_safe, aes_ecb_encrypt_block, ecb_opened, gcm_seal, gcm_sealed,
    hmac_of, hmac_sha256,
};
use crate::device::{messages_carry_their_moment, Device, TuyaDevice};
use crate::frame::{
    built_55aa_reads_back, clock_nonce, frame_55aa, has_room_6699, parse_55aa, parse_6699, read_55aa, read_6699,
    roomy_6699, stripped_6699, trailer_len, unframed, whole_6699_is_read, ProtoVer, ProtocolError,
    PREFIX_55AA, PREFIX_6699,
};
use vstd::prelude::*;

verus! {

pub const CMD_SESS_KEY_NEG_START: u32 = 3;

pub const CMD_SESS_KEY_NEG_FINISH: u32 = 5;

/// The nonce of the local side: the characters `0123456789abcdef`.
pub open spec fn local_nonce() -> Seq<u8> {
    seq![
        0x30u8, 0x31u8, 0x32u8, 0x33u8, 0x34u8, 0x35u8, 0x36u8, 0x37u8, 0x38u8, 0x39u8, 0x61u8,
        0x62u8, 0x63u8, 0x64u8, 0x65u8, 0x66u8,
    ]
}

fn nonce_bytes() -> (r: [u8; 16])
    ensures
        r@ == local_nonce(),
{
    let r: [u8; 16] = [
        0x30, 0x31, 0x32, 0x33, 0x34, 0x35, 0x36, 0x37, 0x38, 0x39, 0x61, 0x62, 0x63, 0x64, 0x65,
        0x66,
    ];
    assert(r@ =~= local_nonce());
    r
}

/// Two nonces combined bit by bit.
pub open spec fn combined(a: Seq<u8>, b: Seq<u8>) -> Seq<u8> {
    Seq::new(16, |i: int| a[i] ^ b[i])
}

fn combine(a: &[u8; 16], b: &[u8; 16]) -> (r: [u8; 16])
    ensures
        r@ == combined(a@, b@),
        forall|i: int| 0 <= i < 16 ==> #[trigger] r@[i] ^ a@[i] == b@[i],
{
    let mut out: [u8; 16] = [0u8; 16];
    let mut i: usize = 0;
    while i < 16
        invariant
            i <= 16,
            forall|k: int| 0 <= k < i ==> out@[k] == a@[k] ^ b@[k],
        decreases 16 - i,
    {
        out[i] = a[i] ^ b[i];
        i = i + 1;
    }
    assert(out@ =~= combined(a@, b@));
    assert forall|k: int| 0 <= k < 16 implies #[trigger] out@[k] ^ a@[k] == b@[k] by {
        let (x, y) = (a@[k], b@[k]);
        assert((x ^ y) ^ x == y) by (bit_vector);
    }
    out
}

/// The key of the session in which the device has sent a nonce.
pub open spec fn session_key_for(version: ProtoVer, local_key: Seq<u8>, remote_nonce: Seq<u8>) -> Seq<
    u8,
> {
    let mixed = combined(local_nonce(), remote_nonce);
    if version == ProtoVer::V35 {
        gcm_sealed(local_key, local_nonce().take(12), Seq::empty(), mixed).0
    } else {
        aes_block(local_key, mixed)
    }
}

/// Derives the key of a session.
pub fn derive_session_key(version: ProtoVer, local_key: &[u8; 16], remote_nonce: &[u8; 16]) -> (r:
    [u8; 16])
    ensures
        r@ == session_key_for(version, local_key@, remote_nonce@),
{
    let nonce = nonce_bytes();
    let mixed = combine(&nonce, remote_nonce);
    if version == ProtoVer::V35 {
        let iv = copy_range(nonce.as_slice(), 0, 12);
        assert(iv@ =~= local_nonce().take(12));
        let none: Vec<u8> = Vec::new();
        assert(none@ =~= Seq::<u8>::empty());
        let (sealed, _tag) = gcm_seal(local_key, iv.as_slice(), none.as_slice(), mixed.as_slice());
        assert(sealed@.take(16) =~= sealed@);
        first_16(sealed.as_slice())
    } else {
        aes_ecb_encrypt_block(local_key, &mixed)
    }
}

/// The nonce of the local side spells the hexadecimal digits.
pub proof fn local_nonce_spells_digits(i: int)
    requires
        0 <= i < 16,
    ensures
        local_nonce().len() == 16,
        local_nonce()[i] == "0123456789abcdef"@[i] as u8,
{
    reveal_strlit("0123456789abcdef");
}

/// Whether a block, with the nonce of the local side taken off bit by bit, is a nonce.
pub open spec fn carries(block: Seq<u8>, nonce: Seq<u8>) -> bool {
    block.len() == 16 && forall|i: int|
        0 <= i < 16 ==> (#[trigger] block[i]) ^ ("0123456789abcdef"@[i] as u8) == nonce[i]
}

/// The block that is enciphered into the key of a session carries the nonce of the device, with
/// every bit of it: in version 3.5 it is sealed under the local key, with the first twelve bytes
/// of the local nonce, before that it is enciphered under the local key.
pub proof fn session_keys_count_every_bit(
    version: ProtoVer,
    local_key: Seq<u8>,
    remote_nonce: Seq<u8>,
)
    requires
        remote_nonce.len() == 16,
    ensures
        exists|block: Seq<u8>| #[trigger]
            carries(block, remote_nonce) && session_key_for(version, local_key, remote_nonce) == (
            if version == ProtoVer::V35 {
                gcm_sealed(
                    local_key,
                    Seq::new(12, |i: int| "0123456789abcdef"@[i] as u8),
                    Seq::empty(),
                    block,
                ).0
            } else {
                aes_block(local_key, block)
            }),
{
    reveal_strlit("0123456789abcdef");
    let block = combined(local_nonce(), remote_nonce);
    assert forall|i: int| 0 <= i < 16 implies (#[trigger] block[i]) ^ (
    "0123456789abcdef"@[i] as u8) == remote_nonce[i] by {
        let (a, b) = (local_nonce()[i], remote_nonce[i]);
        assert((a ^ b) ^ a == b) by (bit_vector);
        assert("0123456789abcdef"@[i] as u8 == a);
    }
    assert(carries(block, remote_nonce));
    assert(local_nonce().take(12) =~= Seq::new(12, |i: int| "0123456789abcdef"@[i] as u8));
}

/// Blocks that carry different nonces differ, and only one block carries a nonce.
pub proof fn blocks_carry_one_nonce(a: Seq<u8>, b: Seq<u8>, x: Seq<u8>, y: Seq<u8>)
    requires
        x.len() == 16,
        y.len() == 16,
        carries(a, x),
        carries(b, y),
    ensures
        a == b <==> x == y,
{
    if x == y {
        assert forall|i: int| 0 <= i < 16 implies a[i] == b[i] by {
            let (p, q, n) = (a[i], b[i], "0123456789abcdef"@[i] as u8);
            assert(p ^ n == q ^ n ==> p == q) by (bit_vector);
            assert(p ^ n == x[i] && q ^ n == y[i]);
        }
        assert(a =~= b);
    }
    if a == b {
        assert forall|i: int| 0 <= i < 16 implies x[i] == y[i] by {
            assert(a[i] ^ ("0123456789abcdef"@[i] as u8) == x[i]);
        }
        assert(x =~= y);
    }
}

/// What happened in the negotiation.
#[derive(Debug)]
pub enum SessionEvent {
    /// The connection is open.
    Start,
    /// The device has answered.
    Reply(Vec<u8>),
    /// The last message was sent; the device had given this nonce.
    FinishSent { remote_nonce: [u8; 16] },
}

/// A [`SessionEvent`] with its bytes taken by their view.
pub ghost enum SessionNews {
    Start,
    Reply(Seq<u8>),
    FinishSent { remote_nonce: Seq<u8> },
}

impl View for SessionEvent {
    type V = SessionNews;

    open spec fn view(&self) -> SessionNews {
        match self {
            SessionEvent::Start => SessionNews::Start,
            SessionEvent::Reply(resp) => SessionNews::Reply(resp@),
            SessionEvent::FinishSent { remote_nonce } => SessionNews::FinishSent {
                remote_nonce: remote_nonce@,
            },
        }
    }
}

/// What is to be done in the negotiation.
#[derive(Debug)]
pub enum SessionAction {
    /// Send the message and wait for the reply.
    SendStart(Vec<u8>),
    /// Send the message; the device has given this nonce.
    SendFinish { msg: Vec<u8>, remote_nonce: [u8; 16] },
    /// The session has a key. A last acknowledgement may follow, which counts for nothing.
    Established,
    /// Give up.
    Failed(ProtocolError),
    /// Stop: the message cannot be built or taken apart.
    Fatal,
}

/// A [`SessionAction`] with its bytes taken by their view.
pub ghost enum SessionDuty {
    SendStart(Seq<u8>),
    SendFinish { msg: Seq<u8>, remote_nonce: Seq<u8> },
    Established,
    Failed(ProtocolError),
    Fatal,
}

impl View for SessionAction {
    type V = SessionDuty;

    open spec fn view(&self) -> SessionDuty {
        match self {
            SessionAction::SendStart(msg) => SessionDuty::SendStart(msg@),
            SessionAction::SendFinish { msg, remote_nonce } => SessionDuty::SendFinish {
                msg: msg@,
                remote_nonce: remote_nonce@,
            },
            SessionAction::Established => SessionDuty::Established,
            SessionAction::Failed(e) => SessionDuty::Failed(*e),
            SessionAction::Fatal => SessionDuty::Fatal,
        }
    }
}

/// The plaintext of the device's reply; nothing for a reply that cannot be taken apart.
pub open spec fn reply_plain(dev: Device, resp: Seq<u8>) -> Option<Result<Seq<u8>, ProtocolError>> {
    if resp.len() < 4 {
        None
    } else if be32_at(resp, 0) == PREFIX_55AA {
        match read_55aa(dev.version, resp) {
            Err(e) => Some(Err(e)),
            Ok((_, payload)) => match ecb_opened(dev.local_key, payload) {
                Some(plain) => Some(Ok(plain)),
                None => None,
            },
        }
    } else if be32_at(resp, 0) == PREFIX_6699 {
        if roomy_6699(resp) {
            match read_6699(resp, dev.local_key) {
                Ok((_, payload)) => Some(Ok(payload)),
                Err(e) => Some(Err(e)),
            }
        } else {
            None
        }
    } else {
        Some(Err(ProtocolError::UnexpectedPrefix(be32_at(resp, 0))))
    }
}

/// The nonce in the plaintext of the device's reply, where the HMAC behind it is the right one.
pub open spec fn nonce_in(local_key: Seq<u8>, plain: Seq<u8>) -> Result<Seq<u8>, ProtocolError> {
    if plain.len() < 48 {
        Err(ProtocolError::SessionTooShort(plain.len() as usize))
    } else if plain.subrange(16, 48) != hmac_of(local_key, local_nonce()) {
        Err(ProtocolError::HmacMismatch)
    } else {
        Ok(plain.take(16))
    }
}

/// What is to be done with a nonce from the device, or without one.
pub open spec fn finish(dev: Device, nonce: Result<Seq<u8>, ProtocolError>, ticks: u64) -> (
    Device,
    SessionDuty,
) {
    match nonce {
        Err(e) => (dev, SessionDuty::Failed(e)),
        Ok(remote_nonce) => {
            let proof_of_key = hmac_of(dev.local_key, remote_nonce);
            if dev.seqno < u32::MAX {
                (
                    dev.advanced(),
                    SessionDuty::SendFinish {
                        msg: dev.keyed_message(
                            CMD_SESS_KEY_NEG_FINISH,
                            proof_of_key,
                            dev.local_key,
                            ticks,
                        ),
                        remote_nonce,
                    },
                )
            } else {
                (dev, SessionDuty::Fatal)
            }
        },
    }
}

/// What is to be done after an event of the negotiation, and the device from then on.
pub open spec fn negotiated(dev: Device, news: SessionNews, ticks: u64) -> (Device, SessionDuty) {
    match news {
        SessionNews::Start => if dev.seqno < u32::MAX {
            (
                dev.advanced(),
                SessionDuty::SendStart(
                    dev.keyed_message(CMD_SESS_KEY_NEG_START, local_nonce(), dev.local_key, ticks),
                ),
            )
        } else {
            (dev, SessionDuty::Fatal)
        },
        SessionNews::Reply(resp) => match reply_plain(dev, resp) {
            None => (dev, SessionDuty::Fatal),
            Some(Err(e)) => (dev, SessionDuty::Failed(e)),
            Some(Ok(plain)) => finish(dev, nonce_in(dev.local_key, plain), ticks),
        },
        SessionNews::FinishSent { remote_nonce } => (
            Device {
                session_key: Some(session_key_for(dev.version, dev.local_key, remote_nonce)),
                ..dev
            },
            SessionDuty::Established,
        ),
    }
}

/// A 6699 reply opens under the local key, whether there was a session before or not, and what is
/// sealed in it counts, without version header and return code.
pub proof fn sealed_replies_open_under_the_local_key(
    dev: Device,
    msg: Seq<u8>,
    seq: u32,
    cmd: u32,
    plain: Seq<u8>,
)
    requires
        unframed(ProtoVer::V35, dev.local_key, msg) == Some((seq, cmd, plain)),
    ensures
        reply_plain(dev, msg) == Some(Ok::<Seq<u8>, ProtocolError>(stripped_6699(plain))),
{
    whole_6699_is_read(msg, dev.local_key, seq, cmd, plain, Seq::empty(), 0);
    assert(msg + Seq::<u8>::empty() =~= msg);
}

/// A 55AA reply opens under the local key, whether there was a session before or not, and what is
/// enciphered behind its return code counts.
pub proof fn enciphered_replies_open_under_the_local_key(
    dev: Device,
    seq: u32,
    cmd: u32,
    code: Seq<u8>,
    sealed: Seq<u8>,
    hmac_key: Seq<u8>,
    plain: Seq<u8>,
)
    requires
        code.len() == 4,
        4 + sealed.len() + trailer_len(dev.version) <= u32::MAX,
        ecb_opened(dev.local_key, sealed) == Some(plain),
    ensures
        reply_plain(dev, frame_55aa(dev.version, seq, cmd, code + sealed, hmac_key)) == Some(
            Ok::<Seq<u8>, ProtocolError>(plain),
        ),
{
    let payload = code + sealed;
    let f = frame_55aa(dev.version, seq, cmd, payload, hmac_key);
    built_55aa_reads_back(dev.version, seq, cmd, payload, hmac_key);
    assert(payload.skip(4) =~= sealed);
    read_replies_are_opened(dev, f, cmd, sealed, plain);
}

proof fn read_replies_are_opened(
    dev: Device,
    resp: Seq<u8>,
    cmd: u32,
    sealed: Seq<u8>,
    plain: Seq<u8>,
)
    requires
        read_55aa(dev.version, resp) == Ok::<(u32, Seq<u8>), ProtocolError>((cmd, sealed)),
        ecb_opened(dev.local_key, sealed) == Some(plain),
    ensures
        reply_plain(dev, resp) == Some(Ok::<Seq<u8>, ProtocolError>(plain)),
{
}

/// A reply that cannot be read is refused, for the reason for which it cannot be read; one that is
/// too short for a prefix, or whose payload does not open, cannot be taken apart.
pub proof fn bad_replies_are_refused(
    dev: Device,
    resp: Seq<u8>,
    e: ProtocolError,
    cmd: u32,
    sealed: Seq<u8>,
)
    ensures
        resp.len() < 4 ==> reply_plain(dev, resp) is None,
        resp.len() >= 4 && resp.take(4) == seq![0u8, 0u8, 0x55u8, 0xaau8] && read_55aa(
            dev.version,
            resp,
        ) == Err::<(u32, Seq<u8>), ProtocolError>(e) ==> reply_plain(dev, resp) == Some(
            Err::<Seq<u8>, ProtocolError>(e),
        ),
        resp.len() >= 4 && resp.take(4) == seq![0u8, 0u8, 0x55u8, 0xaau8] && read_55aa(
            dev.version,
            resp,
        ) == Ok::<(u32, Seq<u8>), ProtocolError>((cmd, sealed)) && ecb_opened(
            dev.local_key,
            sealed,
        ) is None ==> reply_plain(dev, resp) is None,
        resp.len() >= 4 && resp.take(4) == seq![0u8, 0u8, 0x66u8, 0x99u8] && roomy_6699(resp)
            && read_6699(resp, dev.local_key) == Err::<(u32, Seq<u8>), ProtocolError>(e)
            ==> reply_plain(dev, resp) == Some(Err::<Seq<u8>, ProtocolError>(e)),
{
    if resp.len() >= 4 {
        let start = resp.take(4);
        assert(start[0] == resp[0] && start[1] == resp[1] && start[2] == resp[2] && start[3]
            == resp[3]);
    }
}

/// A reply that starts with neither prefix is refused for it.
pub proof fn other_replies_are_refused(dev: Device, msg: Seq<u8>)
    requires
        msg.len() >= 4,
        msg.take(4) != seq![0u8, 0u8, 0x55u8, 0xaau8],
        msg.take(4) != seq![0u8, 0u8, 0x66u8, 0x99u8],
    ensures
        reply_plain(dev, msg) == Some(
            Err::<Seq<u8>, ProtocolError>(ProtocolError::UnexpectedPrefix(be32_at(msg, 0))),
        ),
{
    let start = msg.take(4);
    assert(start[0] == msg[0] && start[1] == msg[1] && start[2] == msg[2] && start[3] == msg[3]);
    if be32_at(msg, 0) == 0x55aa {
        assert(start =~= seq![0u8, 0u8, 0x55u8, 0xaau8]);
    }
    if be32_at(msg, 0) == 0x6699 {
        assert(start =~= seq![0u8, 0u8, 0x66u8, 0x99u8]);
    }
}

/// A reply is a nonce of sixteen bytes and the HMAC, under the local key, of the nonce that was
/// sent to the device. The nonce is taken if and only if the HMAC is right in every byte; what
/// stands behind does not matter.
pub proof fn nonces_are_taken_with_their_hmac(
    local_key: Seq<u8>,
    nonce: Seq<u8>,
    mac: Seq<u8>,
    rest: Seq<u8>,
    plain: Seq<u8>,
)
    requires
        nonce.len() == 16,
        mac.len() == 32,
        plain.len() < 48,
    ensures
        nonce_in(local_key, nonce + mac + rest) == (if mac == hmac_of(
            local_key,
            Seq::new(16, |i: int| "0123456789abcdef"@[i] as u8),
        ) {
            Ok::<Seq<u8>, ProtocolError>(nonce)
        } else {
            Err::<Seq<u8>, ProtocolError>(ProtocolError::HmacMismatch)
        }),
        nonce_in(local_key, plain) == Err::<Seq<u8>, ProtocolError>(
            ProtocolError::SessionTooShort(plain.len() as usize),
        ),
{
    reveal_strlit("0123456789abcdef");
    let whole = nonce + mac + rest;
    assert(whole.subrange(16, 48) =~= mac);
    assert(whole.take(16) =~= nonce);
    assert(local_nonce() =~= Seq::new(16, |i: int| "0123456789abcdef"@[i] as u8));
}

/// Only a device that has shown the HMAC of the local nonce under the local key is answered, and
/// the answer is the HMAC of the nonce that came with it.
pub proof fn only_key_holders_are_answered(dev: Device, resp: Seq<u8>, ticks: u64)
    requires
        negotiated(dev, SessionNews::Reply(resp), ticks).1 is SendFinish,
    ensures
        ({
            let (next, duty) = negotiated(dev, SessionNews::Reply(resp), ticks);
            reply_plain(dev, resp) matches Some(Ok(plain)) && plain.len() >= 48 && plain.subrange(
                16,
                48,
            ) == hmac_of(dev.local_key, local_nonce()) && duty == (SessionDuty::SendFinish {
                msg: dev.keyed_message(
                    CMD_SESS_KEY_NEG_FINISH,
                    hmac_of(dev.local_key, plain.take(16)),
                    dev.local_key,
                    ticks,
                ),
                remote_nonce: plain.take(16),
            }) && next == dev.advanced()
        }),
{
}

/// The messages of a negotiation take the next number each, and in version 3.5 carry the nonce of
/// their moment; nothing else of the device changes by them.
pub proof fn negotiations_take_the_next_number(dev: Device, news: SessionNews, ticks: u64)
    ensures
        ({
            let (next, duty) = negotiated(dev, news, ticks);
            &&& duty matches SessionDuty::SendStart(msg) ==> dev.seqno < u32::MAX && next.seqno
                == dev.seqno + 1 && (dev.version == ProtoVer::V35 ==> msg.subrange(18, 30)
                == clock_nonce(ticks))
            &&& duty matches SessionDuty::SendFinish { msg, .. } ==> dev.seqno < u32::MAX
                && next.seqno == dev.seqno + 1 && (dev.version == ProtoVer::V35 ==> msg.subrange(
                18,
                30,
            ) == clock_nonce(ticks))
            &&& !(duty is SendStart) && !(duty is SendFinish) ==> next.seqno == dev.seqno
            &&& next.version == dev.version && next.local_key == dev.local_key && next.dev_id
                == dev.dev_id
            &&& news is Start ==> duty is SendStart || duty is Fatal
        }),
{
    if dev.version == ProtoVer::V35 {
        match negotiated(dev, news, ticks).1 {
            SessionDuty::SendStart(msg) => {
                messages_carry_their_moment(
                    dev,
                    CMD_SESS_KEY_NEG_START,
                    local_nonce(),
                    dev.local_key,
                    ticks,
                );
            },
            SessionDuty::SendFinish { remote_nonce, .. } => {
                messages_carry_their_moment(
                    dev,
                    CMD_SESS_KEY_NEG_FINISH,
                    hmac_of(dev.local_key, remote_nonce),
                    dev.local_key,
                    ticks,
                );
            },
            _ => {},
        }
    }
}

/// A reply with the right HMAC is answered, unless the message numbers are used up.
pub proof fn key_holders_are_answered(dev: Device, resp: Seq<u8>, plain: Seq<u8>, ticks: u64)
    requires
        reply_plain(dev, resp) == Some(Ok::<Seq<u8>, ProtocolError>(plain)),
        nonce_in(dev.local_key, plain) is Ok,
    ensures
        ({
            let duty = negotiated(dev, SessionNews::Reply(resp), ticks).1;
            &&& duty is SendFinish || duty is Fatal
            &&& duty is Fatal <==> dev.seqno == u32::MAX
        }),
{
}

/// A negotiation that is answered and finished with the nonce of the answer ends in the session
/// key for the nonce of the device, which has shown the HMAC of the local nonce.
pub proof fn sessions_follow_from_the_reply(dev: Device, resp: Seq<u8>, ticks: u64, later: u64)
    requires
        negotiated(dev, SessionNews::Reply(resp), ticks).1 is SendFinish,
    ensures
        ({
            let (answering, duty) = negotiated(dev, SessionNews::Reply(resp), ticks);
            let remote_nonce = duty->remote_nonce;
            let (done, end) = negotiated(answering, SessionNews::FinishSent { remote_nonce }, later);
            reply_plain(dev, resp) matches Some(Ok(plain)) && plain.len() >= 48 && plain.subrange(
                16,
                48,
            ) == hmac_of(dev.local_key, local_nonce()) && remote_nonce == plain.take(16) && end
                == SessionDuty::Established && done == (Device {
                session_key: Some(
                    session_key_for(dev.version, dev.local_key, plain.take(16)),
                ),
                ..dev.advanced()
            })
        }),
{
    only_key_holders_are_answered(dev, resp, ticks);
}

/// A reply that is refused ends the negotiation, for the reason for which it is refused, and leaves
/// the device as it was; so does a nonce that is not taken.
pub proof fn refused_replies_end_the_negotiation(dev: Device, resp: Seq<u8>, ticks: u64)
    ensures
        ({
            let (next, duty) = negotiated(dev, SessionNews::Reply(resp), ticks);
            &&& reply_plain(dev, resp) matches Some(Err(e)) ==> next == dev && duty
                == SessionDuty::Failed(e)
            &&& reply_plain(dev, resp) is None ==> next == dev && duty == SessionDuty::Fatal
            &&& reply_plain(dev, resp) matches Some(Ok(plain)) ==> (nonce_in(dev.local_key, plain)
                matches Err(e) ==> next == dev && duty == SessionDuty::Failed(e))
        }),
        dev.seqno < u32::MAX ==> negotiated(dev, SessionNews::Start, ticks).1 is SendStart,
{
}

/// The key of the session changes only when the negotiation is complete.
pub proof fn sessions_begin_at_the_end(dev: Device, news: SessionNews, ticks: u64)
    ensures
        ({
            let (next, duty) = negotiated(dev, news, ticks);
            &&& duty is Established <==> news is FinishSent
            &&& !(duty is Established) ==> next.session_key == dev.session_key
        }),
{
}

/// Whether a version has sessions.
pub fn has_session(version: ProtoVer) -> (r: bool)
    ensures
        r == (version != ProtoVer::V33),
{
    version == ProtoVer::V34 || version == ProtoVer::V35
}

/// Checks the plaintext of the device's reply and takes its nonce out.
pub fn check_reply(local_key: &[u8; 16], plain: &[u8]) -> (r: Result<[u8; 16], ProtocolError>)
    ensures
        nonce_in(local_key@, plain@) == (match r {
            Ok(nonce) => Ok::<Seq<u8>, ProtocolError>(nonce@),
            Err(e) => Err::<Seq<u8>, ProtocolError>(e),
        }),
{
    if plain.len() < 48 {
        return Err(ProtocolError::SessionTooShort(plain.len()));
    }
    let nonce = nonce_bytes();
    let expected = hmac_sha256(local_key.as_slice(), nonce.as_slice());
    if !same_bytes(vstd::slice::slice_subrange(plain, 16, 48), expected.as_slice()) {
        return Err(ProtocolError::HmacMismatch);
    }
    Ok(first_16(plain))
}

impl TuyaDevice {
    fn open_reply(&self, resp: &[u8]) -> (r: Option<Result<Vec<u8>, ProtocolError>>)
        ensures
            reply_plain(self@, resp@) == (match r {
                None => None,
                Some(Ok(plain)) => Some(Ok::<Seq<u8>, ProtocolError>(plain@)),
                Some(Err(e)) => Some(Err::<Seq<u8>, ProtocolError>(e)),
            }),
    {
        if resp.len() < 4 {
            return None;
        }
        let prefix: u32 = read_be32(resp, 0);
        if prefix == PREFIX_55AA {
            match parse_55aa(self.version, resp) {
                Err(e) => Some(Err(e)),
                Ok((_, payload)) => match aes_ecb_decrypt_safe(&self.local_key, payload.as_slice()) {
                    Some(plain) => Some(Ok(plain)),
                    None => None,
                },
            }
        } else if prefix == PREFIX_6699 {
            if has_room_6699(resp) {
                match parse_6699(resp, &self.local_key) {
                    Ok((_, payload)) => Some(Ok(payload)),
                    Err(e) => Some(Err(e)),
                }
            } else {
                None
            }
        } else {
            Some(Err(ProtocolError::UnexpectedPrefix(prefix)))
        }
    }

    /// Decides what is to be done after an event of the negotiation.
    pub fn negotiate_session(&mut self, event: SessionEvent, ticks: u64) -> (r: SessionAction)
        ensures
            (final(self)@, r@) == negotiated(old(self)@, event@, ticks),
            r is Fatal <==> (match event@ {
                SessionNews::Start => old(self).seqno == u32::MAX,
                SessionNews::Reply(resp) => match reply_plain(old(self)@, resp) {
                    None => true,
                    Some(Err(_)) => false,
                    Some(Ok(plain)) => nonce_in(old(self).local_key@, plain) is Ok && old(
                        self,
                    ).seqno == u32::MAX,
                },
                SessionNews::FinishSent { .. } => false,
            }),
            r matches SessionAction::SendStart(msg) ==> unframed(
                old(self).version,
                old(self).local_key@,
                msg@,
            ) == Some(
                (
                    (old(self).seqno + 1) as u32,
                    3u32,
                    Seq::new(16, |i: int| "0123456789abcdef"@[i] as u8),
                ),
            ),
            r matches SessionAction::SendFinish { msg, remote_nonce } ==> unframed(
                old(self).version,
                old(self).local_key@,
                msg@,
            ) == Some(
                (
                    (old(self).seqno + 1) as u32,
                    5u32,
                    hmac_of(old(self).local_key@, remote_nonce@),
                ),
            ),
    {
        match event {
            SessionEvent::Start => {
                let key = self.local_key;
                let nonce = nonce_bytes();
                proof {
                    reveal_strlit("0123456789abcdef");
                    assert(local_nonce() =~= Seq::new(16, |i: int| "0123456789abcdef"@[i] as u8));
                }
                match self.build_keyed(CMD_SESS_KEY_NEG_START, nonce.as_slice(), &key, ticks) {
                    Some(msg) => SessionAction::SendStart(msg),
                    None => SessionAction::Fatal,
                }
            },
            SessionEvent::Reply(resp) => match self.open_reply(resp.as_slice()) {
                None => SessionAction::Fatal,
                Some(Err(e)) => SessionAction::Failed(e),
                Some(Ok(plain)) => {
                    let key = self.local_key;
                    match check_reply(&key, plain.as_slice()) {
                        Err(e) => SessionAction::Failed(e),
                        Ok(remote_nonce) => {
                            let answer = hmac_sha256(key.as_slice(), remote_nonce.as_slice());
                            match self.build_keyed(
                                CMD_SESS_KEY_NEG_FINISH,
                                answer.as_slice(),
                                &key,
                                ticks,
                            ) {
                                Some(msg) => SessionAction::SendFinish { msg, remote_nonce },
                                None => SessionAction::Fatal,
                            }
                        },
                    }
                },
            },
            SessionEvent::FinishSent { remote_nonce } => {
                self.session_key = Some(
                    derive_session_key(self.version, &self.local_key, &remote_nonce),
                );
                SessionAction::Established
            },
        }
    }
}

} // verus!
