//! The ciphers and digests of the protocol.
//!
//! What they compute, but for CRC-32, is known here by name only: a specification speaks of
//! `ecb_sealed(key, data)` and so on. Beside the names stand the lengths of the results, and that
//! opening and sealing undo each other.

use aes::Aes128;
use aes_gcm::{AeadInPlace, Aes128Gcm, Nonce};
use cipher::block_padding::Pkcs7;
use cipher::{BlockDecryptMut, BlockEncrypt, BlockEncryptMut, KeyInit};
use hmac::{Hmac, Mac};
use md5::{Digest, Md5};
use sha2::Sha256;
use vstd::prelude::*;

verus! {

/// AES-128 in ECB mode with PKCS#7 padding, encryption.
pub uninterp spec fn ecb_sealed(key: Seq<u8>, data: Seq<u8>) -> Seq<u8>;

/// AES-128 in ECB mode with PKCS#7 padding, decryption; nothing where the length or the padding
/// is wrong.
pub uninterp spec fn ecb_opened(key: Seq<u8>, data: Seq<u8>) -> Option<Seq<u8>>;

/// AES-128 on one block.
pub uninterp spec fn aes_block(key: Seq<u8>, block: Seq<u8>) -> Seq<u8>;

/// AES-128-GCM encryption: the ciphertext and the tag.
pub uninterp spec fn gcm_sealed(
    key: Seq<u8>,
    nonce: Seq<u8>,
    aad: Seq<u8>,
    plain: Seq<u8>,
) -> (Seq<u8>, Seq<u8>);

/// AES-128-GCM decryption; nothing where the tag does not fit.
pub uninterp spec fn gcm_opened(
    key: Seq<u8>,
    nonce: Seq<u8>,
    aad: Seq<u8>,
    cipher: Seq<u8>,
    tag: Seq<u8>,
) -> Option<Seq<u8>>;

/// HMAC-SHA256.
pub uninterp spec fn hmac_of(key: Seq<u8>, data: Seq<u8>) -> Seq<u8>;

/// A CRC-32 register after one bit: shifted, and reduced by the reflected polynomial where a one
/// fell out.
pub open spec fn crc32_shifted(register: u32) -> u32 {
    if register & 1 == 1 {
        (register >> 1) ^ 0xedb88320
    } else {
        register >> 1
    }
}

/// A CRC-32 register after a number of bits.
pub open spec fn crc32_reduced(register: u32, bits: nat) -> u32
    decreases bits,
{
    if bits == 0 {
        register
    } else {
        crc32_shifted(crc32_reduced(register, (bits - 1) as nat))
    }
}

/// The CRC-32 register behind some data; it starts with ones.
pub open spec fn crc32_register(data: Seq<u8>) -> u32
    decreases data.len(),
{
    if data.len() == 0 {
        0xffffffff
    } else {
        crc32_reduced(crc32_register(data.drop_last()) ^ (data.last() as u32), 8)
    }
}

/// CRC-32, as IEEE 802.3 has it.
#[verifier::opaque]
pub open spec fn crc32_of(data: Seq<u8>) -> u32 {
    !crc32_register(data)
}

/// MD5.
pub uninterp spec fn md5_of(data: Seq<u8>) -> Seq<u8>;

/// The view of an optional byte vector.
pub open spec fn bytes_view(v: Option<Vec<u8>>) -> Option<Seq<u8>> {
    match v {
        Some(b) => Some(b@),
        None => None,
    }
}

/// The longest plaintext that AES-GCM takes.
pub const GCM_MAX: u64 = 68719476736;

/// `encrypt_padded_mut` of `ecb::Encryptor<Aes128>` with `Pkcs7`: pads the data to whole blocks,
/// with at least one byte, and encrypts each. The result is a function of key and data, it is
/// the next multiple of 16 bytes long, and `decrypt_padded_mut` turns it back into the data.
#[verifier::external_body]
pub(crate) fn aes_ecb_encrypt(key: &[u8; 16], data: &[u8]) -> (r: Vec<u8>)
    requires
        data@.len() + 16 <= isize::MAX,
    ensures
        r@ == ecb_sealed(key@, data@),
        r@.len() == (data@.len() / 16 + 1) * 16,
        ecb_opened(key@, r@) == Some(data@),
{
    let mut buf = vec![0u8; data.len() + 16];
    buf[..data.len()].copy_from_slice(data);
    let ct = ecb::Encryptor::<Aes128>::new(key.into())
        .encrypt_padded_mut::<Pkcs7>(&mut buf, data.len())
        .unwrap();
    ct.to_vec()
}

/// `decrypt_padded_mut` of `ecb::Decryptor<Aes128>` with `Pkcs7`: a function of key and data. It
/// fails where the data is not a positive number of whole blocks or the padding is malformed,
/// and otherwise takes 1 to 16 bytes of padding off. Every byte of the padding is looked at, so
/// that `encrypt_padded_mut` turns what comes out back into the data, and nothing else opens.
#[verifier::external_body]
fn ecb_decrypt(key: &[u8; 16], data: &[u8]) -> (r: Option<Vec<u8>>)
    ensures
        bytes_view(r) == ecb_opened(key@, data@),
        r matches Some(plain) ==> data@.len() % 16 == 0 && plain@.len() < data@.len() <= plain@.len()
            + 16,
        r matches Some(plain) ==> ecb_sealed(key@, plain@) == data@,
        forall|p: Seq<u8>|
            #[trigger] ecb_sealed(key@, p) == data@ && p.len() + 16 <= isize::MAX ==> bytes_view(r)
                == Some(p),
{
    let mut buf = data.to_vec();
    ecb::Decryptor::<Aes128>::new(key.into())
        .decrypt_padded_mut::<Pkcs7>(&mut buf)
        .ok()
        .map(|plain| plain.to_vec())
}

/// `encrypt_block` of `Aes128`: a function of key and block.
#[verifier::external_body]
pub(crate) fn aes_ecb_encrypt_block(key: &[u8; 16], block: &[u8; 16]) -> (r: [u8; 16])
    ensures
        r@ == aes_block(key@, block@),
{
    let cipher = <Aes128 as KeyInit>::new(key.into());
    let mut out = aes::Block::clone_from_slice(block);
    cipher.encrypt_block(&mut out);
    out.into()
}

/// `encrypt_in_place_detached` of `Aes128Gcm`: a function of key, nonce, associated data and
/// plaintext. The ciphertext is as long as the plaintext, the tag has 16 bytes, and
/// `decrypt_in_place_detached` turns them back into the plaintext. It fails only above its
/// length limits.
#[verifier::external_body]
pub(crate) fn gcm_seal(key: &[u8; 16], nonce: &[u8], aad: &[u8], plain: &[u8]) -> (r: (
    Vec<u8>,
    Vec<u8>,
))
    requires
        nonce@.len() == 12,
        aad@.len() <= GCM_MAX,
        plain@.len() <= GCM_MAX,
    ensures
        (r.0@, r.1@) == gcm_sealed(key@, nonce@, aad@, plain@),
        r.0@.len() == plain@.len(),
        r.1@.len() == 16,
        gcm_opened(key@, nonce@, aad@, r.0@, r.1@) == Some(plain@),
{
    let gcm = <Aes128Gcm as KeyInit>::new(key.into());
    let mut buffer = plain.to_vec();
    let tag = gcm
        .encrypt_in_place_detached(Nonce::from_slice(nonce), aad, &mut buffer)
        .unwrap();
    (buffer, tag.to_vec())
}

/// `decrypt_in_place_detached` of `Aes128Gcm`: a function of key, nonce, associated data,
/// ciphertext and tag. It fails where the tag does not fit; otherwise the plaintext is as long
/// as the ciphertext, and `encrypt_in_place_detached`, within its length limits, turns it back
/// into ciphertext and tag.
#[verifier::external_body]
pub(crate) fn gcm_open(key: &[u8; 16], nonce: &[u8], aad: &[u8], cipher: &[u8], tag: &[u8]) -> (r:
    Option<Vec<u8>>)
    requires
        nonce@.len() == 12,
        tag@.len() == 16,
    ensures
        bytes_view(r) == gcm_opened(key@, nonce@, aad@, cipher@, tag@),
        r matches Some(plain) ==> plain@.len() == cipher@.len(),
        r matches Some(plain) ==> (plain@.len() <= GCM_MAX && aad@.len() <= GCM_MAX ==> gcm_sealed(
            key@,
            nonce@,
            aad@,
            plain@,
        ) == (cipher@, tag@)),
{
    let gcm = <Aes128Gcm as KeyInit>::new(key.into());
    let mut buffer = cipher.to_vec();
    gcm.decrypt_in_place_detached(Nonce::from_slice(nonce), aad, &mut buffer, tag.into())
        .ok()
        .map(|_| buffer)
}

/// `Hmac<Sha256>` over one piece of data: a function of key and data. A key of any length is
/// taken.
#[verifier::external_body]
pub(crate) fn hmac_sha256(key: &[u8], data: &[u8]) -> (r: [u8; 32])
    ensures
        r@ == hmac_of(key@, data@),
{
    let mut mac = <Hmac<Sha256> as Mac>::new_from_slice(key).unwrap();
    mac.update(data);
    mac.finalize().into_bytes().into()
}

/// `crc32fast::Hasher` over one piece of data: the CRC-32 of IEEE 802.3.
#[verifier::external_body]
pub(crate) fn crc32(data: &[u8]) -> (r: u32)
    ensures
        r == crc32_of(data@),
{
    let mut hasher = crc32fast::Hasher::new();
    hasher.update(data);
    hasher.finalize()
}

/// `Md5` over one piece of data: a function of the data.
#[verifier::external_body]
pub(crate) fn md5_digest(data: &[u8]) -> (r: [u8; 16])
    ensures
        r@ == md5_of(data@),
{
    let mut hasher = Md5::new();
    hasher.update(data);
    hasher.finalize().into()
}

/// Decrypts data that may not open. Data opens to a plaintext if and only if it is the
/// encryption of that plaintext.
pub fn aes_ecb_decrypt_safe(key: &[u8; 16], data: &[u8]) -> (r: Option<Vec<u8>>)
    ensures
        bytes_view(r) == ecb_opened(key@, data@),
        r matches Some(plain) ==> ecb_sealed(key@, plain@) == data@ && data@.len() == (plain@.len()
            / 16 + 1) * 16,
        forall|p: Seq<u8>|
            #[trigger] ecb_sealed(key@, p) == data@ && p.len() + 16 <= isize::MAX ==> bytes_view(r)
                == Some(p),
        data@.len() == 0 || data@.len() % 16 != 0 ==> r is None,
{
    ecb_decrypt(key, data)
}

} // verus!
