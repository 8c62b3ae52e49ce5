//! A device and its messages.
//!
//! The connection itself is kept by the caller, which sends what is built here and hands in what
//! comes back.

use crate::bytes::{
    be32, be32_at, be32_reads_back, begins_with, copy_range, first_16, read_be32, starts_with,
};
use crate::crypto::{
    aes_ecb_decrypt_safe, aes_ecb_encrypt, bytes_view, ecb_opened, ecb_sealed, gcm_opened, GCM_MAX,
};
use crate::frame::{
    build_55aa, build_6699, built_55aa_reads_back, clock_nonce, fits_55aa, fits_6699, frame_55aa,
    frame_6699, has_room_6699, nonce_at, parse_55aa, parse_6699, read_55aa, read_6699, read_view,
    reads_as_6699, roomy_6699, stripped_6699, trailer_len, unframed, whole_6699_is_read, ProtoVer,
    ProtocolError, PREFIX_55AA, PREFIX_6699,
};
use vstd::prelude::*;

verus! {

pub const CMD_HEART_BEAT: u32 = 9;

/// A device with which messages are exchanged.
#[derive(Debug)]
pub struct TuyaDevice {
    pub dev_id: String,
    pub local_key: [u8; 16],
    pub version: ProtoVer,
    pub session_key: Option<[u8; 16]>,
    /// The number of the message that was built last.
    pub seqno: u32,
}

/// A [`TuyaDevice`] with its texts and keys taken by their view.
pub ghost struct Device {
    pub dev_id: Seq<char>,
    pub local_key: Seq<u8>,
    pub version: ProtoVer,
    pub session_key: Option<Seq<u8>>,
    pub seqno: u32,
}

/// The view of an optional key.
pub open spec fn key_view(key: Option<[u8; 16]>) -> Option<Seq<u8>> {
    match key {
        Some(k) => Some(k@),
        None => None,
    }
}

impl View for TuyaDevice {
    type V = Device;

    open spec fn view(&self) -> Device {
        Device {
            dev_id: self.dev_id@,
            local_key: self.local_key@,
            version: self.version,
            session_key: key_view(self.session_key),
            seqno: self.seqno,
        }
    }
}

/// Whether a payload can be put into a message.
pub open spec fn fits(version: ProtoVer, payload: Seq<u8>) -> bool {
    if version == ProtoVer::V35 {
        fits_6699(payload)
    } else {
        fits_55aa(version, payload)
    }
}

/// Decides [`fits`].
pub fn can_frame(version: ProtoVer, payload: &[u8]) -> (r: bool)
    ensures
        r == fits(version, payload@),
{
    let len: u64 = (payload.len() as u32) as u64;
    match version {
        ProtoVer::V33 => len + 8 <= 0xffff_ffff,
        ProtoVer::V34 => len + 36 <= 0xffff_ffff,
        ProtoVer::V35 => len + 28 <= 0xffff_ffff && payload.len() as u64 <= GCM_MAX,
    }
}

/// A message with a sequence number, under a key.
pub open spec fn framed(
    version: ProtoVer,
    seq: u32,
    cmd: u32,
    payload: Seq<u8>,
    key: Seq<u8>,
    ticks: u64,
) -> Seq<u8> {
    if version == ProtoVer::V35 {
        frame_6699(seq, cmd, payload, key, clock_nonce(ticks))
    } else {
        frame_55aa(version, seq, cmd, payload, key)
    }
}

/// Whether a message holds a command and a payload, in so far as its length field can hold the
/// length of the payload: a 6699 message opens to the payload, a 55AA message shows it.
pub open spec fn holds(version: ProtoVer, msg: Seq<u8>, key: Seq<u8>, cmd: u32, payload: Seq<u8>) -> bool {
    if version == ProtoVer::V35 {
        payload.len() + 28 <= u32::MAX ==> msg.len() == payload.len() + 50 && reads_as_6699(
            msg,
            key,
            cmd,
            payload,
        )
    } else {
        payload.len() + trailer_len(version) <= u32::MAX ==> {
            &&& msg.len() == 16 + payload.len() + trailer_len(version)
            &&& msg.subrange(16, 16 + payload.len() as int) == payload
            &&& read_55aa(version, msg) matches Ok((c, _)) && c == cmd
        }
    }
}

/// Whether the holder of the key finds a command and a plaintext in a message of a device.
pub open spec fn opens_to(dev: Device, msg: Seq<u8>, cmd: u32, plain: Seq<u8>) -> bool {
    let payload = dev.enciphered(plain);
    &&& holds(dev.version, msg, dev.command_key(), cmd, payload)
    &&& dev.version != ProtoVer::V35 ==> ecb_opened(dev.command_key(), payload) == Some(plain)
}

/// The number, the command and the plaintext that the holder of the key finds in a message for a
/// command: the payload of a 55AA message is enciphered once more.
pub open spec fn found_in(version: ProtoVer, key: Seq<u8>, msg: Seq<u8>) -> Option<
    (u32, u32, Seq<u8>),
> {
    match unframed(version, key, msg) {
        Some((seq, cmd, payload)) => match version {
            ProtoVer::V35 => Some((seq, cmd, payload)),
            _ => match ecb_opened(key, payload) {
                Some(plain) => Some((seq, cmd, plain)),
                None => None,
            },
        },
        None => None,
    }
}

/// The plaintext of a payload without its version header.
pub open spec fn stripped(plain: Seq<u8>) -> Seq<u8> {
    if plain.len() >= 15 && (begins_with(plain, seq![0x33u8, 0x2eu8, 0x33u8]) || begins_with(
        plain,
        seq![0x33u8, 0x2eu8, 0x34u8],
    )) {
        plain.skip(15)
    } else {
        plain
    }
}

/// Takes the version header off the plaintext of a payload.
pub fn strip_header(plain: Vec<u8>) -> (r: Vec<u8>)
    ensures
        r@ == stripped(plain@),
{
    let tag_33: [u8; 3] = [0x33, 0x2e, 0x33];
    let tag_34: [u8; 3] = [0x33, 0x2e, 0x34];
    assert(tag_33@ =~= seq![0x33u8, 0x2eu8, 0x33u8]);
    assert(tag_34@ =~= seq![0x33u8, 0x2eu8, 0x34u8]);
    if plain.len() >= 15 && (starts_with(plain.as_slice(), tag_33.as_slice()) || starts_with(
        plain.as_slice(),
        tag_34.as_slice(),
    )) {
        assert(plain@.skip(15) =~= plain@.subrange(15, plain@.len() as int));
        copy_range(plain.as_slice(), 15, plain.len())
    } else {
        plain
    }
}

impl Device {
    /// The key under which messages are sent: that of the session, before it the local one.
    pub open spec fn enc_key(self) -> Seq<u8> {
        match self.session_key {
            Some(k) => k,
            None => self.local_key,
        }
    }

    /// The key under which commands are framed and enciphered.
    pub open spec fn command_key(self) -> Seq<u8> {
        if self.version == ProtoVer::V33 {
            self.local_key
        } else {
            self.enc_key()
        }
    }

    /// The device after one more message.
    pub open spec fn advanced(self) -> Device {
        Device { seqno: (self.seqno + 1) as u32, ..self }
    }

    /// Whether a message with a payload can be built.
    pub open spec fn can_build(self, payload: Seq<u8>) -> bool {
        self.seqno < u32::MAX && fits(self.version, payload)
    }

    /// The next message, under a key.
    pub open spec fn keyed_message(self, cmd: u32, payload: Seq<u8>, key: Seq<u8>, ticks: u64) -> Seq<
        u8,
    > {
        framed(self.version, (self.seqno + 1) as u32, cmd, payload, key, ticks)
    }

    /// The next message.
    pub open spec fn message(self, cmd: u32, payload: Seq<u8>, ticks: u64) -> Seq<u8> {
        self.keyed_message(cmd, payload, self.command_key(), ticks)
    }

    /// The payload of a message with a plaintext: version 3.5 encrypts the message as a whole.
    pub open spec fn enciphered(self, plain: Seq<u8>) -> Seq<u8> {
        if self.version == ProtoVer::V35 {
            plain
        } else {
            ecb_sealed(self.command_key(), plain)
        }
    }

    /// Whether a plaintext can be enciphered and sent.
    pub open spec fn can_send(self, plain: Seq<u8>) -> bool {
        (self.version == ProtoVer::V35 || plain.len() + 16 <= isize::MAX) && self.can_build(
            self.enciphered(plain),
        )
    }

    /// The plaintext of a payload, without its version header; nothing where the payload does
    /// not open.
    pub open spec fn decrypted(self, payload: Seq<u8>) -> Option<Seq<u8>> {
        match ecb_opened(self.enc_key(), payload) {
            Some(plain) => Some(stripped(plain)),
            None => None,
        }
    }

    /// What the answer to a message holds; nothing for an answer that cannot be taken apart.
    pub open spec fn answer(self, resp: Seq<u8>) -> Option<Result<(u32, Seq<u8>), ProtocolError>> {
        if resp.len() < 4 {
            Some(Err(ProtocolError::ResponseTooShort))
        } else if be32_at(resp, 0) == PREFIX_55AA {
            match read_55aa(self.version, resp) {
                Err(e) => Some(Err(e)),
                Ok((cmd, payload)) => if self.version != ProtoVer::V35 && payload.len() > 0 {
                    match self.decrypted(payload) {
                        Some(plain) => Some(Ok((cmd, plain))),
                        None => None,
                    }
                } else {
                    Some(Ok((cmd, payload)))
                },
            }
        } else if be32_at(resp, 0) == PREFIX_6699 {
            if roomy_6699(resp) {
                Some(read_6699(resp, self.enc_key()))
            } else {
                None
            }
        } else {
            Some(Err(ProtocolError::UnknownPrefix(be32_at(resp, 0))))
        }
    }

    /// The payload of a message that the device sent on its own, if it has one; nothing for a
    /// message that cannot be taken apart.
    pub open spec fn push(self, resp: Seq<u8>) -> Option<Result<Option<Seq<u8>>, ProtocolError>> {
        if resp.len() < 4 {
            Some(Ok(None))
        } else if be32_at(resp, 0) == PREFIX_55AA {
            match read_55aa(self.version, resp) {
                Err(e) => Some(Err(e)),
                Ok((_, payload)) => if payload.len() > 0 {
                    match self.decrypted(payload) {
                        Some(plain) => Some(Ok(Some(plain))),
                        None => None,
                    }
                } else {
                    Some(Ok(None))
                },
            }
        } else if be32_at(resp, 0) == PREFIX_6699 {
            if roomy_6699(resp) {
                match read_6699(resp, self.enc_key()) {
                    Ok((_, payload)) => Some(Ok(Some(payload))),
                    Err(e) => Some(Err(e)),
                }
            } else {
                None
            }
        } else {
            Some(Ok(None))
        }
    }
}

/// In versions 3.3 and 3.4, a message with a return code and a payload that opens under the key
/// in use is read as the command and the plaintext of the payload, whether it is an answer or
/// was sent by the device on its own.
pub proof fn device_messages_open(
    dev: Device,
    seq: u32,
    cmd: u32,
    retcode: Seq<u8>,
    sealed: Seq<u8>,
    plain: Seq<u8>,
    hmac_key: Seq<u8>,
)
    requires
        dev.version != ProtoVer::V35,
        retcode.len() == 4,
        sealed.len() > 0,
        4 + sealed.len() + trailer_len(dev.version) <= u32::MAX,
        ecb_opened(dev.enc_key(), sealed) == Some(plain),
    ensures
        ({
            let msg = frame_55aa(dev.version, seq, cmd, retcode + sealed, hmac_key);
            &&& dev.answer(msg) == Some(
                Ok::<(u32, Seq<u8>), ProtocolError>((cmd, stripped(plain))),
            )
            &&& dev.push(msg) == Some(
                Ok::<Option<Seq<u8>>, ProtocolError>(Some(stripped(plain))),
            )
        }),
{
    let payload = retcode + sealed;
    let msg = frame_55aa(dev.version, seq, cmd, payload, hmac_key);
    built_55aa_reads_back(dev.version, seq, cmd, payload, hmac_key);
    assert(payload.skip(4) =~= sealed);
}

/// A 6699 message under the key in use is read as its command and its plaintext without version
/// header and return code, whether it is an answer or was sent by the device on its own.
pub proof fn sealed_messages_open(dev: Device, msg: Seq<u8>, cmd: u32, plain: Seq<u8>)
    requires
        reads_as_6699(msg, dev.enc_key(), cmd, plain),
    ensures
        dev.answer(msg) == Some(
            Ok::<(u32, Seq<u8>), ProtocolError>((cmd, stripped_6699(plain))),
        ),
        dev.push(msg) == Some(
            Ok::<Option<Seq<u8>>, ProtocolError>(Some(stripped_6699(plain))),
        ),
{
}

/// Messages in version 3.3 are under the local key. In the other versions they are under the key
/// of the session, and before there is one under the local key, and so is what the device sends.
pub proof fn keys_in_use(dev: Device, session: Seq<u8>)
    ensures
        dev.version == ProtoVer::V33 ==> dev.command_key() == dev.local_key,
        dev.version != ProtoVer::V33 && dev.session_key == Some(session) ==> dev.command_key()
            == session,
        dev.session_key is None ==> dev.command_key() == dev.local_key && dev.enc_key()
            == dev.local_key,
        dev.session_key == Some(session) ==> dev.enc_key() == session,
{
}

/// A message takes the next number, and nothing else of the device changes.
pub proof fn messages_are_numbered(dev: Device)
    requires
        dev.seqno < u32::MAX,
    ensures
        dev.advanced().seqno == dev.seqno + 1,
        dev.advanced().dev_id == dev.dev_id,
        dev.advanced().local_key == dev.local_key,
        dev.advanced().version == dev.version,
        dev.advanced().session_key == dev.session_key,
{
}

/// The version and twelve more bytes come off a plaintext in versions 3.3 and 3.4; a plaintext
/// that starts otherwise, as an object does, stays as it is.
pub proof fn only_version_headers_come_off(filler: Seq<u8>, text: Seq<u8>)
    requires
        filler.len() == 12,
    ensures
        stripped(seq![0x33u8, 0x2eu8, 0x33u8] + filler + text) == text,
        stripped(seq![0x33u8, 0x2eu8, 0x34u8] + filler + text) == text,
        text.len() < 15 || text[0] != 0x33 || text[1] != 0x2e || (text[2] != 0x33 && text[2] != 0x34)
            ==> stripped(text) == text,
{
    let three = seq![0x33u8, 0x2eu8, 0x33u8];
    let four = seq![0x33u8, 0x2eu8, 0x34u8];
    let (a, b) = (three + filler + text, four + filler + text);
    assert(a.take(3) =~= three && a.skip(15) =~= text);
    assert(b.take(3) =~= four && b.skip(15) =~= text);
    if text.len() >= 15 {
        assert(text.take(3)[0] == text[0] && text.take(3)[1] == text[1] && text.take(3)[2]
            == text[2]);
    }
}

/// A 55AA message with nothing behind its return code is an empty answer, and no message that the
/// device sends on its own. In version 3.5, where such messages are not enciphered, the payload of
/// an answer is taken as it is.
pub proof fn bare_messages_are_empty(
    dev: Device,
    seq: u32,
    cmd: u32,
    payload: Seq<u8>,
    hmac_key: Seq<u8>,
)
    requires
        payload.len() + trailer_len(dev.version) <= u32::MAX,
    ensures
        ({
            let msg = frame_55aa(dev.version, seq, cmd, payload, hmac_key);
            &&& payload.len() <= 4 ==> dev.answer(msg) == Some(
                Ok::<(u32, Seq<u8>), ProtocolError>((cmd, Seq::empty())),
            )
            &&& payload.len() <= 4 ==> dev.push(msg) == Some(
                Ok::<Option<Seq<u8>>, ProtocolError>(None),
            )
            &&& payload.len() >= 4 && dev.version == ProtoVer::V35 ==> dev.answer(msg) == Some(
                Ok::<(u32, Seq<u8>), ProtocolError>((cmd, payload.skip(4))),
            )
        }),
{
    let msg = frame_55aa(dev.version, seq, cmd, payload, hmac_key);
    built_55aa_reads_back(dev.version, seq, cmd, payload, hmac_key);
    assert(msg.subrange(0, 4) =~= be32(PREFIX_55AA));
    be32_reads_back(msg, 0, PREFIX_55AA);
    if payload.len() == 4 {
        assert(payload.skip(4) =~= Seq::<u8>::empty());
    }
}

/// Bytes that start with neither prefix are no answer, and no message that the device sends on
/// its own.
pub proof fn other_bytes_are_no_messages(dev: Device, resp: Seq<u8>)
    requires
        resp.len() < 4 || (resp.take(4) != seq![0u8, 0u8, 0x55u8, 0xaau8] && resp.take(4) != seq![
            0u8,
            0u8,
            0x66u8,
            0x99u8,
        ]),
    ensures
        dev.answer(resp) == Some(
            Err::<(u32, Seq<u8>), ProtocolError>(
                if resp.len() < 4 {
                    ProtocolError::ResponseTooShort
                } else {
                    ProtocolError::UnknownPrefix(be32_at(resp, 0))
                },
            ),
        ),
        dev.push(resp) == Some(Ok::<Option<Seq<u8>>, ProtocolError>(None)),
{
    if resp.len() >= 4 {
        let start = resp.take(4);
        assert(start[0] == resp[0] && start[1] == resp[1] && start[2] == resp[2] && start[3]
            == resp[3]);
        if be32_at(resp, 0) == 0x55aa {
            assert(start =~= seq![0u8, 0u8, 0x55u8, 0xaau8]);
        }
        if be32_at(resp, 0) == 0x6699 {
            assert(start =~= seq![0u8, 0u8, 0x66u8, 0x99u8]);
        }
    }
}

/// A message in which the holder of the key in use finds a command and a plaintext is read as
/// such, whether it is an answer or was sent by the device on its own.
pub proof fn sealed_messages_are_read(dev: Device, msg: Seq<u8>, seq: u32, cmd: u32, plain: Seq<u8>)
    requires
        unframed(ProtoVer::V35, dev.enc_key(), msg) == Some((seq, cmd, plain)),
    ensures
        dev.answer(msg) == Some(
            Ok::<(u32, Seq<u8>), ProtocolError>((cmd, stripped_6699(plain))),
        ),
        dev.push(msg) == Some(
            Ok::<Option<Seq<u8>>, ProtocolError>(Some(stripped_6699(plain))),
        ),
{
    whole_6699_is_read(msg, dev.enc_key(), seq, cmd, plain, Seq::empty(), 0);
    assert(msg + Seq::<u8>::empty() =~= msg);
}

/// A 6699 message that was cut off, or that does not open under the key in use, is refused; one
/// without room for nonce and tag cannot be taken apart.
pub proof fn bad_sealed_messages_are_refused(dev: Device, resp: Seq<u8>)
    requires
        resp.len() >= 22,
        resp.take(4) == seq![0u8, 0u8, 0x66u8, 0x99u8],
    ensures
        ({
            let end = 18 + be32_at(resp, 14);
            &&& end + 4 > resp.len() ==> dev.answer(resp) == Some(
                Err::<(u32, Seq<u8>), ProtocolError>(ProtocolError::GcmTruncated),
            )
            &&& end + 4 <= resp.len() && end < 46 ==> dev.answer(resp) is None && dev.push(
                resp,
            ) is None
            &&& end + 4 <= resp.len() && end >= 46 && gcm_opened(
                dev.enc_key(),
                resp.subrange(18, 30),
                resp.subrange(4, 18),
                resp.subrange(30, end - 16),
                resp.subrange(end - 16, end),
            ) is None ==> dev.answer(resp) == Some(
                Err::<(u32, Seq<u8>), ProtocolError>(ProtocolError::GcmFailed),
            ) && dev.push(resp) == Some(
                Err::<Option<Seq<u8>>, ProtocolError>(ProtocolError::GcmFailed),
            )
        }),
{
    let start = resp.take(4);
    assert(start[0] == resp[0] && start[1] == resp[1] && start[2] == resp[2] && start[3]
        == resp[3]);
}

/// A 55AA message that cannot be read is refused, for the reason for which it cannot be read; one
/// whose payload does not open under the key in use cannot be taken apart.
pub proof fn bad_enciphered_messages_are_refused(
    dev: Device,
    resp: Seq<u8>,
    e: ProtocolError,
    cmd: u32,
    sealed: Seq<u8>,
)
    requires
        resp.len() >= 4,
        resp.take(4) == seq![0u8, 0u8, 0x55u8, 0xaau8],
    ensures
        read_55aa(dev.version, resp) == Err::<(u32, Seq<u8>), ProtocolError>(e) ==> dev.answer(resp)
            == Some(Err::<(u32, Seq<u8>), ProtocolError>(e)) && dev.push(resp) == Some(
            Err::<Option<Seq<u8>>, ProtocolError>(e),
        ),
        read_55aa(dev.version, resp) == Ok::<(u32, Seq<u8>), ProtocolError>((cmd, sealed))
            && sealed.len() > 0 && ecb_opened(dev.enc_key(), sealed) is None ==> dev.push(
            resp,
        ) is None && (dev.version != ProtoVer::V35 ==> dev.answer(resp) is None),
{
    let start = resp.take(4);
    assert(start[0] == resp[0] && start[1] == resp[1] && start[2] == resp[2] && start[3]
        == resp[3]);
}

/// A message in version 3.5 carries the nonce of its moment, whatever it is for.
pub proof fn messages_carry_their_moment(
    dev: Device,
    cmd: u32,
    payload: Seq<u8>,
    key: Seq<u8>,
    ticks: u64,
)
    requires
        dev.version == ProtoVer::V35,
    ensures
        dev.keyed_message(cmd, payload, key, ticks).subrange(18, 30) == clock_nonce(ticks),
        dev.message(cmd, payload, ticks).subrange(18, 30) == clock_nonce(ticks),
{
    assert(dev.keyed_message(cmd, payload, key, ticks).subrange(18, 30) =~= clock_nonce(ticks));
    assert(dev.message(cmd, payload, ticks).subrange(18, 30) =~= clock_nonce(ticks));
}

/// A 55AA message that the device sends on its own opens under the key in use, in every version.
pub proof fn enciphered_pushes_open(
    dev: Device,
    seq: u32,
    cmd: u32,
    retcode: Seq<u8>,
    sealed: Seq<u8>,
    plain: Seq<u8>,
    hmac_key: Seq<u8>,
)
    requires
        retcode.len() == 4,
        sealed.len() > 0,
        4 + sealed.len() + trailer_len(dev.version) <= u32::MAX,
        ecb_opened(dev.enc_key(), sealed) == Some(plain),
    ensures
        dev.push(frame_55aa(dev.version, seq, cmd, retcode + sealed, hmac_key)) == Some(
            Ok::<Option<Seq<u8>>, ProtocolError>(Some(stripped(plain))),
        ),
{
    let payload = retcode + sealed;
    let msg = frame_55aa(dev.version, seq, cmd, payload, hmac_key);
    built_55aa_reads_back(dev.version, seq, cmd, payload, hmac_key);
    assert(payload.skip(4) =~= sealed);
    read_pushes_are_opened(dev, msg, cmd, sealed, plain);
}

proof fn read_pushes_are_opened(
    dev: Device,
    resp: Seq<u8>,
    cmd: u32,
    sealed: Seq<u8>,
    plain: Seq<u8>,
)
    requires
        read_55aa(dev.version, resp) == Ok::<(u32, Seq<u8>), ProtocolError>((cmd, sealed)),
        sealed.len() > 0,
        ecb_opened(dev.enc_key(), sealed) == Some(plain),
    ensures
        dev.push(resp) == Some(Ok::<Option<Seq<u8>>, ProtocolError>(Some(stripped(plain)))),
{
}

/// The view of an answer.
pub open spec fn answer_view(r: Option<Result<(u32, Vec<u8>), ProtocolError>>) -> Option<
    Result<(u32, Seq<u8>), ProtocolError>,
> {
    match r {
        Some(read) => Some(read_view(read)),
        None => None,
    }
}

/// The view of a message that the device sent on its own.
pub open spec fn push_view(r: Option<Result<Option<Vec<u8>>, ProtocolError>>) -> Option<
    Result<Option<Seq<u8>>, ProtocolError>,
> {
    match r {
        Some(Ok(payload)) => Some(Ok(bytes_view(payload))),
        Some(Err(e)) => Some(Err(e)),
        None => None,
    }
}

impl TuyaDevice {
    /// A device with a key of at least 16 bytes, of which the first 16 count.
    pub fn new(dev_id: &str, local_key: &str, version: ProtoVer) -> (r: Result<
        TuyaDevice,
        ProtocolError,
    >)
        ensures
            ({
                let key = vstd::utf8::encode_utf8(local_key@);
                if key.len() < 16 {
                    r matches Err(e) && e == ProtocolError::KeyTooShort(key.len() as usize)
                } else {
                    r matches Ok(dev) && dev@ == (Device {
                        dev_id: dev_id@,
                        local_key: key.take(16),
                        version,
                        session_key: None,
                        seqno: 0,
                    })
                }
            }),
    {
        let kb = local_key.as_bytes();
        if kb.len() < 16 {
            return Err(ProtocolError::KeyTooShort(kb.len()));
        }
        Ok(
            TuyaDevice {
                dev_id: dev_id.to_string(),
                local_key: first_16(kb),
                version,
                session_key: None,
                seqno: 0,
            },
        )
    }

    /// The key under which messages are sent.
    pub fn enc_key(&self) -> (r: &[u8; 16])
        ensures
            r@ == self@.enc_key(),
    {
        match &self.session_key {
            Some(k) => k,
            None => &self.local_key,
        }
    }

    /// The number of the next message.
    pub fn next_seq(&mut self) -> (r: u32)
        requires
            old(self).seqno < u32::MAX,
        ensures
            r == old(self).seqno + 1,
            final(self)@ == old(self)@.advanced(),
    {
        self.seqno = self.seqno + 1;
        self.seqno
    }

    /// Builds the next message in the 55AA format.
    pub fn build_msg_55aa(&mut self, cmd: u32, payload: &[u8], hmac_key: &[u8; 16]) -> (r: Vec<u8>)
        requires
            old(self).seqno < u32::MAX,
            fits_55aa(old(self).version, payload@),
        ensures
            r@ == frame_55aa(
                old(self).version,
                (old(self).seqno + 1) as u32,
                cmd,
                payload@,
                hmac_key@,
            ),
            final(self)@ == old(self)@.advanced(),
            r@.len() == 16 + payload@.len() + trailer_len(old(self).version),
            old(self).version != ProtoVer::V35 && payload@.len() + 36 <= u32::MAX ==> unframed(
                old(self).version,
                hmac_key@,
                r@,
            ) == Some(((old(self).seqno + 1) as u32, cmd, payload@)),
    {
        let seq: u32 = self.next_seq();
        build_55aa(self.version, seq, cmd, payload, hmac_key)
    }

    /// Builds the next message in the 6699 format.
    pub fn build_msg_6699(&mut self, cmd: u32, payload: &[u8], enc_key: &[u8; 16], ticks: u64) -> (r:
        Vec<u8>)
        requires
            old(self).seqno < u32::MAX,
            fits_6699(payload@),
        ensures
            r@ == frame_6699(
                (old(self).seqno + 1) as u32,
                cmd,
                payload@,
                enc_key@,
                clock_nonce(ticks),
            ),
            final(self)@ == old(self)@.advanced(),
            r@.len() == payload@.len() + 50,
            payload@.len() + 28 <= u32::MAX ==> reads_as_6699(r@, enc_key@, cmd, payload@),
            payload@.len() + 28 <= u32::MAX ==> unframed(ProtoVer::V35, enc_key@, r@) == Some(
                ((old(self).seqno + 1) as u32, cmd, payload@),
            ),
    {
        let seq: u32 = self.next_seq();
        let nonce = nonce_at(ticks);
        build_6699(seq, cmd, payload, enc_key, nonce.as_slice())
    }

    /// Builds the next message under a key; nothing where the numbers are used up or the payload
    /// is too long.
    pub fn build_keyed(&mut self, cmd: u32, payload: &[u8], key: &[u8; 16], ticks: u64) -> (r: Option<
        Vec<u8>,
    >)
        ensures
            match r {
                Some(msg) => old(self)@.can_build(payload@) && msg@ == old(self)@.keyed_message(
                    cmd,
                    payload@,
                    key@,
                    ticks,
                ) && final(self)@ == old(self)@.advanced() && holds(
                    old(self).version,
                    msg@,
                    key@,
                    cmd,
                    payload@,
                ),
                None => !old(self)@.can_build(payload@) && final(self)@ == old(self)@,
            },
            r matches Some(msg) ==> (payload@.len() + 36 <= u32::MAX ==> unframed(
                old(self).version,
                key@,
                msg@,
            ) == Some(((old(self).seqno + 1) as u32, cmd, payload@))),
            payload@.len() + 36 <= u32::MAX ==> (r is None <==> old(self).seqno == u32::MAX),
    {
        if self.seqno == u32::MAX || !can_frame(self.version, payload) {
            return None;
        }
        if self.version == ProtoVer::V35 {
            Some(self.build_msg_6699(cmd, payload, key, ticks))
        } else {
            let ghost seq: u32 = (self.seqno + 1) as u32;
            proof {
                if payload@.len() + trailer_len(self.version) <= u32::MAX {
                    built_55aa_reads_back(self.version, seq, cmd, payload@, key@);
                }
            }
            Some(self.build_msg_55aa(cmd, payload, key))
        }
    }

    fn command_key(&self) -> (r: [u8; 16])
        ensures
            r@ == self@.command_key(),
    {
        if self.version == ProtoVer::V33 {
            self.local_key
        } else {
            *self.enc_key()
        }
    }

    /// Builds the message that keeps the connection alive; nothing where the numbers are used
    /// up.
    pub fn heartbeat(&mut self, ticks: u64) -> (r: Option<Vec<u8>>)
        ensures
            match r {
                Some(msg) => old(self).seqno < u32::MAX && msg@ == old(self)@.message(
                    CMD_HEART_BEAT,
                    Seq::empty(),
                    ticks,
                ) && final(self)@ == old(self)@.advanced(),
                None => old(self).seqno == u32::MAX && final(self)@ == old(self)@,
            },
            r matches Some(msg) ==> unframed(
                old(self).version,
                old(self)@.command_key(),
                msg@,
            ) == Some(((old(self).seqno + 1) as u32, 9u32, Seq::<u8>::empty())),
    {
        let key = self.command_key();
        let empty: Vec<u8> = Vec::new();
        self.build_keyed(CMD_HEART_BEAT, empty.as_slice(), &key, ticks)
    }

    /// Builds the message for a command with a plaintext; nothing where the numbers are used up
    /// or the plaintext is too long.
    pub fn command(&mut self, cmd: u32, payload: &[u8], ticks: u64) -> (r: Option<Vec<u8>>)
        ensures
            match r {
                Some(msg) => old(self)@.can_send(payload@) && msg@ == old(self)@.message(
                    cmd,
                    old(self)@.enciphered(payload@),
                    ticks,
                ) && final(self)@ == old(self)@.advanced() && opens_to(
                    old(self)@,
                    msg@,
                    cmd,
                    payload@,
                ),
                None => !old(self)@.can_send(payload@) && final(self)@ == old(self)@,
            },
            r matches Some(msg) ==> (payload@.len() + 64 <= u32::MAX ==> found_in(
                old(self).version,
                old(self)@.command_key(),
                msg@,
            ) == Some(((old(self).seqno + 1) as u32, cmd, payload@))),
            payload@.len() < 0x7fff0000 ==> (r is None <==> old(self).seqno == u32::MAX),
    {
        let key = self.command_key();
        if self.version == ProtoVer::V35 {
            return self.build_keyed(cmd, payload, &key, ticks);
        }
        if payload.len() > isize::MAX as usize - 16 {
            return None;
        }
        let encrypted = aes_ecb_encrypt(&key, payload);
        self.build_keyed(cmd, encrypted.as_slice(), &key, ticks)
    }

    /// Decrypts a payload; nothing where it does not open.
    pub fn decrypt_payload(&self, encrypted: &[u8]) -> (r: Option<Vec<u8>>)
        ensures
            bytes_view(r) == self@.decrypted(encrypted@),
    {
        match aes_ecb_decrypt_safe(self.enc_key(), encrypted) {
            Some(plain) => Some(strip_header(plain)),
            None => None,
        }
    }

    /// Takes the answer to a message apart.
    pub fn open_answer(&self, resp: &[u8]) -> (r: Option<Result<(u32, Vec<u8>), ProtocolError>>)
        ensures
            answer_view(r) == self@.answer(resp@),
    {
        if resp.len() < 4 {
            return Some(Err(ProtocolError::ResponseTooShort));
        }
        let prefix: u32 = read_be32(resp, 0);
        if prefix == PREFIX_55AA {
            match parse_55aa(self.version, resp) {
                Err(e) => Some(Err(e)),
                Ok((cmd, payload)) => {
                    if self.version != ProtoVer::V35 && payload.len() > 0 {
                        match self.decrypt_payload(payload.as_slice()) {
                            Some(plain) => Some(Ok((cmd, plain))),
                            None => None,
                        }
                    } else {
                        Some(Ok((cmd, payload)))
                    }
                },
            }
        } else if prefix == PREFIX_6699 {
            if has_room_6699(resp) {
                Some(parse_6699(resp, self.enc_key()))
            } else {
                None
            }
        } else {
            Some(Err(ProtocolError::UnknownPrefix(prefix)))
        }
    }

    /// Takes a message that the device sent on its own apart.
    pub fn open_push(&self, resp: &[u8]) -> (r: Option<Result<Option<Vec<u8>>, ProtocolError>>)
        ensures
            push_view(r) == self@.push(resp@),
    {
        if resp.len() < 4 {
            return Some(Ok(None));
        }
        let prefix: u32 = read_be32(resp, 0);
        if prefix == PREFIX_55AA {
            match parse_55aa(self.version, resp) {
                Err(e) => Some(Err(e)),
                Ok((_, payload)) => {
                    if payload.len() > 0 {
                        match self.decrypt_payload(payload.as_slice()) {
                            Some(plain) => Some(Ok(Some(plain))),
                            None => None,
                        }
                    } else {
                        Some(Ok(None))
                    }
                },
            }
        } else if prefix == PREFIX_6699 {
            if has_room_6699(resp) {
                match parse_6699(resp, self.enc_key()) {
                    Ok((_, payload)) => Some(Ok(Some(payload))),
                    Err(e) => Some(Err(e)),
                }
            } else {
                None
            }
        } else {
            Some(Ok(None))
        }
    }
}

} // verus!
