//! The cryptographic primitives of the storage layer, as provided by the
//! RustCrypto crates: AES-128 in CBC mode with PKCS#7 padding
//! (`block-modes`, `aes`), HMAC-SHA256 (`hmac`, `sha2`), PBKDF2 over
//! HMAC-SHA1 (`pbkdf2`, `sha-1`), scrypt, and the thread-local random
//! generator (`rand`).
//!
//! Every function here is trusted: its contract restates what the crate's
//! source does.  The values that the algorithms compute (the ciphertext of a
//! block sequence, an HMAC tag, a derived key) are given names; the padding
//! scheme, which is a few lines of code, is written out.

use aes::Aes128;
use block_modes::block_padding::Pkcs7;
use block_modes::{BlockMode, BlockModeError, Cbc, InvalidKeyIvLength};
use hmac::crypto_mac::{InvalidKeyLength, MacError};
use hmac::{Hmac, Mac, NewMac};
use rand::rngs::ThreadRng;
use rand::RngCore;
use scrypt::errors::{InvalidOutputLen, InvalidParams};
use scrypt::Params;
use sha2::Sha256;
use vstd::prelude::*;

verus! {

/// Block size of AES in bytes.
pub const AES_BLOCK_SIZE: usize = 16;

// ---------------------------------------------------------------------------
// PKCS#7 padding (block-padding 0.2, `Pkcs7`), written out.

/// PKCS#7 padding of `m` to the AES block size: `n` bytes of value `n` are
/// appended, where `n = 16 - |m| mod 16` (a whole block when `|m|` is a
/// multiple of 16).
pub open spec fn pkcs7_pad(m: Seq<u8>) -> Seq<u8> {
    let n = (16 - m.len() % 16) as nat;
    m + Seq::new(n, |i: int| n as u8)
}

/// Length of the message that PKCS#7 unpadding of `d` leaves, or `None`
/// when the padding is malformed: `d` must be non-empty, its last byte `n`
/// must satisfy `1 <= n <= |d|`, and the `n - 1` bytes before it must all
/// equal `n`.
pub open spec fn pkcs7_unpad_len(d: Seq<u8>) -> Option<nat> {
    if d.len() == 0 {
        None
    } else {
        let n = d.last();
        if n == 0 || n > d.len() {
            None
        } else if forall|i: int| d.len() - n <= i < d.len() - 1 ==> d[i] == n {
            Some((d.len() - n) as nat)
        } else {
            None
        }
    }
}

/// Unpadding a padded message gives back the message's length.
pub proof fn lemma_pkcs7_unpad_pad(m: Seq<u8>)
    ensures
        pkcs7_pad(m).len() == m.len() + (16 - m.len() % 16),
        pkcs7_pad(m).len() % 16 == 0,
        pkcs7_unpad_len(pkcs7_pad(m)) == Some(m.len()),
        pkcs7_pad(m).take(m.len() as int) == m,
{
    let n = (16 - m.len() % 16) as nat;
    let p = pkcs7_pad(m);
    assert(p.last() == n as u8);
    assert(p.take(m.len() as int) =~= m);
}

// ---------------------------------------------------------------------------
// AES-128-CBC (block-modes 0.8, aes 0.7).

/// Error of a failed block-mode operation.
#[verifier::external_type_specification]
#[verifier::external_body]
pub struct ExBlockModeError(BlockModeError);

/// Error of a key or IV of unsupported length.
#[verifier::external_type_specification]
#[verifier::external_body]
pub struct ExInvalidKeyIvLength(InvalidKeyIvLength);

/// AES-128-CBC encryption, without padding, of the block-aligned `data`
/// under `key` with initialization vector `iv`.
pub uninterp spec fn aes128_cbc_encrypt_blocks(key: Seq<u8>, iv: Seq<u8>, data: Seq<u8>) -> Seq<u8>;

/// AES-128-CBC decryption, without unpadding, of the block-aligned `data`
/// under `key` with initialization vector `iv`.
pub uninterp spec fn aes128_cbc_decrypt_blocks(key: Seq<u8>, iv: Seq<u8>, data: Seq<u8>) -> Seq<u8>;

/// An instance of `block_modes::Cbc<aes::Aes128, Pkcs7>`; Verus cannot
/// declare the generic type itself (its bounds are traits of the crate), so
/// it is held here, opaque.
#[verifier::external_body]
pub struct AesCbc {
    inner: Cbc<Aes128, Pkcs7>,
}

/// The key that a CBC instance was made with.
pub uninterp spec fn aes_cbc_key(c: AesCbc) -> Seq<u8>;

/// The initialization vector that a CBC instance was made with.
pub uninterp spec fn aes_cbc_iv(c: AesCbc) -> Seq<u8>;

/// `BlockMode::new_from_slices`: fails exactly when the IV or the key is
/// not 16 bytes long; otherwise the instance holds the given key and IV.
#[verifier::external_body]
pub(crate) fn aes_cbc_new(key: &[u8], iv: &[u8]) -> (res: Result<AesCbc, InvalidKeyIvLength>)
    ensures
        (res is Ok) == (key@.len() == 16 && iv@.len() == 16),
        res is Ok ==> aes_cbc_key(res->Ok_0) == key@ && aes_cbc_iv(res->Ok_0) == iv@,
{
    match Cbc::<Aes128, Pkcs7>::new_from_slices(key, iv) {
        Ok(inner) => Ok(AesCbc { inner }),
        Err(e) => Err(e),
    }
}

/// `BlockMode::encrypt` (in place): `buffer[..pos]` is the message and the
/// rest of the buffer is room for padding.  With `bs = 16 * (pos / 16)`,
/// it fails, leaving the buffer as it was, when fewer than `bs + 16` bytes
/// are available; otherwise it pads the message with PKCS#7, encrypts the
/// first `bs + 16` bytes in place and returns them.
#[verifier::external_body]
pub(crate) fn aes_cbc_encrypt(c: AesCbc, buffer: &mut Vec<u8>, pos: usize) -> (res: Result<Vec<u8>, BlockModeError>)
    ensures
        final(buffer)@.len() == old(buffer)@.len(),
        (res is Ok) == (pos <= old(buffer)@.len() && 16 * (pos / 16) + 16 <= old(buffer)@.len()),
        res is Err ==> final(buffer)@ == old(buffer)@,
        res is Ok ==> {
            let n = 16 * (pos / 16) + 16;
            &&& res->Ok_0@ == aes128_cbc_encrypt_blocks(
                aes_cbc_key(c),
                aes_cbc_iv(c),
                pkcs7_pad(old(buffer)@.take(pos as int)),
            )
            &&& final(buffer)@ == res->Ok_0@ + old(buffer)@.skip(n)
        },
{
    match c.inner.encrypt(&mut buffer[..], pos) {
        Ok(out) => Ok(out.to_vec()),
        Err(e) => Err(e),
    }
}

/// `BlockMode::encrypt_vec`: pads `plaintext` with PKCS#7 and encrypts it.
#[verifier::external_body]
pub(crate) fn aes_cbc_encrypt_vec(c: AesCbc, plaintext: &[u8]) -> (res: Vec<u8>)
    ensures
        res@ == aes128_cbc_encrypt_blocks(aes_cbc_key(c), aes_cbc_iv(c), pkcs7_pad(plaintext@)),
        res@.len() == pkcs7_pad(plaintext@).len(),
{
    c.inner.encrypt_vec(plaintext)
}

/// `BlockMode::decrypt` (in place): fails, leaving the buffer as it was,
/// when its length is not a multiple of 16; otherwise the buffer is
/// decrypted in place, and the PKCS#7-unpadded prefix is returned, or an
/// error when the padding is malformed.  Decryption inverts encryption:
/// the CBC encryption of block-aligned data under the same key and IV
/// decrypts to that data.
#[verifier::external_body]
pub(crate) fn aes_cbc_decrypt(c: AesCbc, buffer: &mut Vec<u8>) -> (res: Result<Vec<u8>, BlockModeError>)
    ensures
        final(buffer)@.len() == old(buffer)@.len(),
        old(buffer)@.len() % 16 != 0 ==> res is Err && final(buffer)@ == old(buffer)@,
        old(buffer)@.len() % 16 == 0 ==> final(buffer)@ == aes128_cbc_decrypt_blocks(
            aes_cbc_key(c),
            aes_cbc_iv(c),
            old(buffer)@,
        ),
        old(buffer)@.len() % 16 == 0 ==> (res is Ok) == (pkcs7_unpad_len(final(buffer)@) is Some),
        res is Ok ==> res->Ok_0@ == final(buffer)@.take(
            pkcs7_unpad_len(final(buffer)@)->Some_0 as int,
        ),
        forall|d: Seq<u8>|
            d.len() % 16 == 0 && old(buffer)@ == #[trigger] aes128_cbc_encrypt_blocks(
                aes_cbc_key(c),
                aes_cbc_iv(c),
                d,
            ) ==> final(buffer)@ == d,
{
    match c.inner.decrypt(&mut buffer[..]) {
        Ok(out) => Ok(out.to_vec()),
        Err(e) => Err(e),
    }
}

// ---------------------------------------------------------------------------
// HMAC-SHA256 (hmac 0.11, sha2 0.9).

/// Error of a MAC key of unsupported length.
#[verifier::external_type_specification]
#[verifier::external_body]
pub struct ExInvalidKeyLength(InvalidKeyLength);

/// Error of a failed tag verification.
#[verifier::external_type_specification]
#[verifier::external_body]
pub struct ExMacError(MacError);

/// The HMAC-SHA256 tag of `data` under `key`.
pub uninterp spec fn hmac_sha256(key: Seq<u8>, data: Seq<u8>) -> Seq<u8>;

/// An instance of `hmac::Hmac<sha2::Sha256>`, held opaque for the same
/// reason as `AesCbc`.
#[verifier::external_body]
pub struct HmacSha256 {
    inner: Hmac<Sha256>,
}

/// The key that an HMAC instance was made with.
pub uninterp spec fn hmac_key(m: HmacSha256) -> Seq<u8>;

/// The data that an HMAC instance has absorbed so far.
pub uninterp spec fn hmac_data(m: HmacSha256) -> Seq<u8>;

/// `NewMac::new_from_slice`: HMAC accepts keys of any length, so this never
/// fails; the instance holds the key and has absorbed nothing.
#[verifier::external_body]
pub(crate) fn hmac_new(key: &[u8]) -> (res: Result<HmacSha256, InvalidKeyLength>)
    ensures
        res is Ok,
        res is Ok ==> hmac_key(res->Ok_0) == key@ && hmac_data(res->Ok_0) == Seq::<u8>::empty(),
{
    match <Hmac<Sha256> as NewMac>::new_from_slice(key) {
        Ok(inner) => Ok(HmacSha256 { inner }),
        Err(e) => Err(e),
    }
}

/// `Mac::update`: absorbs `data`.
#[verifier::external_body]
pub(crate) fn hmac_update(m: &mut HmacSha256, data: &[u8])
    ensures
        hmac_key(*final(m)) == hmac_key(*old(m)),
        hmac_data(*final(m)) == hmac_data(*old(m)) + data@,
{
    m.inner.update(data)
}

/// `Mac::finalize`: the 32-byte tag of the absorbed data.
#[verifier::external_body]
pub(crate) fn hmac_finalize(m: HmacSha256) -> (res: Vec<u8>)
    ensures
        res@ == hmac_sha256(hmac_key(m), hmac_data(m)),
        res@.len() == 32,
{
    m.inner.finalize().into_bytes().to_vec()
}

/// `Mac::verify`: succeeds exactly when `tag` equals the tag of the
/// absorbed data (compared in constant time, and unequal when the lengths
/// differ).
#[verifier::external_body]
pub(crate) fn hmac_verify(m: HmacSha256, tag: &[u8]) -> (res: Result<(), MacError>)
    ensures
        (res is Ok) == (tag@ == hmac_sha256(hmac_key(m), hmac_data(m))),
{
    m.inner.verify(tag)
}

// ---------------------------------------------------------------------------
// PBKDF2-HMAC-SHA1 (pbkdf2 0.8, sha-1 0.9).

/// The `len`-byte PBKDF2 key derived with HMAC-SHA1 from `password` and
/// `salt` in `rounds` rounds.
pub uninterp spec fn pbkdf2_hmac_sha1(password: Seq<u8>, salt: Seq<u8>, rounds: u32, len: nat) -> Seq<u8>;

/// `pbkdf2::pbkdf2::<Hmac<Sha1>>`: fills `res` with the derived key.
#[verifier::external_body]
pub(crate) fn pbkdf2_sha1(password: &[u8], salt: &[u8], rounds: u32, res: &mut [u8])
    ensures
        final(res)@ == pbkdf2_hmac_sha1(password@, salt@, rounds, old(res)@.len()),
        final(res)@.len() == old(res)@.len(),
{
    pbkdf2::pbkdf2::<Hmac<sha1::Sha1>>(password, salt, rounds, res)
}

// ---------------------------------------------------------------------------
// scrypt (scrypt 0.7).

/// scrypt parameters.
#[verifier::external_type_specification]
#[verifier::external_body]
pub struct ExParams(Params);

/// Error of invalid scrypt parameters.
#[verifier::external_type_specification]
#[verifier::external_body]
pub struct ExInvalidParams(InvalidParams);

/// Error of an invalid scrypt output length.
#[verifier::external_type_specification]
#[verifier::external_body]
pub struct ExInvalidOutputLen(InvalidOutputLen);

/// The `(log_n, r, p)` that scrypt parameters hold.
pub uninterp spec fn scrypt_params_values(p: Params) -> (u8, u32, u32);

/// The `len`-byte scrypt key derived from `password` and `salt` with the
/// parameters `(log_n, r, p)`.
pub uninterp spec fn scrypt_key(password: Seq<u8>, salt: Seq<u8>, params: (u8, u32, u32), len: nat) -> Seq<u8>;

/// The conditions under which `Params::new` accepts its arguments.
pub open spec fn scrypt_params_valid(log_n: u8, r: u32, p: u32) -> bool {
    &&& r > 0
    &&& p > 0
    &&& log_n < usize::BITS
    &&& r * 128 * vstd::arithmetic::power2::pow2(log_n as nat) <= usize::MAX
    &&& r * 128 * p <= usize::MAX
    &&& (log_n as int) < r * 16
    &&& r * p < 0x4000_0000
}

/// `scrypt::Params::new`: accepts exactly the valid parameters (positive
/// `r` and `p`, `log_n` below the word size, buffer sizes that fit in a
/// word, `log_n < 16 r`, `r p < 2^30`) and then holds them.
#[verifier::external_body]
pub(crate) fn scrypt_params(log_n: u8, r: u32, p: u32) -> (res: Result<Params, InvalidParams>)
    ensures
        (res is Ok) == scrypt_params_valid(log_n, r, p),
        res is Ok ==> scrypt_params_values(res->Ok_0) == (log_n, r, p),
{
    Params::new(log_n, r, p)
}

/// `scrypt::scrypt`: fails, leaving `output` as it was, when the output is
/// empty or longer than `(2^32 - 1) * 32` bytes; otherwise fills it with
/// the derived key.
#[verifier::external_body]
pub(crate) fn scrypt_derive(password: &[u8], salt: &[u8], params: &Params, output: &mut [u8]) -> (res: Result<(), InvalidOutputLen>)
    ensures
        (res is Ok) == (old(output)@.len() > 0 && old(output)@.len() / 32 <= 0xffff_ffff),
        res is Err ==> final(output)@ == old(output)@,
        res is Ok ==> final(output)@ == scrypt_key(
            password@,
            salt@,
            scrypt_params_values(*params),
            old(output)@.len(),
        ),
        final(output)@.len() == old(output)@.len(),
{
    scrypt::scrypt(password, salt, params, output)
}

// ---------------------------------------------------------------------------
// Randomness (rand 0.8).

/// The thread-local random number generator.
#[verifier::external_type_specification]
#[verifier::external_body]
pub struct ExThreadRng(ThreadRng);

/// `rand::thread_rng`: a handle on the thread-local generator.
#[verifier::external_body]
pub(crate) fn thread_rng() -> (res: ThreadRng) {
    rand::thread_rng()
}

/// `RngCore::fill_bytes`: overwrites `dest` with random bytes; nothing is
/// known of them but their number.
#[verifier::external_body]
pub(crate) fn fill_bytes(rng: &mut ThreadRng, dest: &mut [u8])
    ensures
        final(dest)@.len() == old(dest)@.len(),
{
    rng.fill_bytes(dest)
}

} // verus!
