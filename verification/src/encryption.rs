//! Encryption of storage files and derivation of the storage and database
//! keys.
//!
//! A file is stored as `IV || AES-128-CBC(PKCS7(message)) || HMAC-SHA256`,
//! where the tag covers the IV and the ciphertext.  The 36-byte storage key
//! holds the AES key (its first 16 bytes) and the HMAC key (its last 20
//! bytes); it is derived from the password with PBKDF2-HMAC-SHA1.  The
//! 32-byte database key is derived with scrypt.

use crate::crypto::{
    aes128_cbc_decrypt_blocks, aes128_cbc_encrypt_blocks, aes_cbc_decrypt, aes_cbc_encrypt,
    aes_cbc_encrypt_vec, aes_cbc_new, fill_bytes, hmac_finalize, hmac_new, hmac_sha256,
    hmac_update, hmac_verify, lemma_pkcs7_unpad_pad, pbkdf2_hmac_sha1, pbkdf2_sha1, pkcs7_pad,
    pkcs7_unpad_len, scrypt_derive, scrypt_key, scrypt_params, thread_rng, AES_BLOCK_SIZE,
};
use vstd::prelude::*;
use vstd::string::*;

verus! {

/// Length of the storage key: 16 bytes of AES key, 20 bytes of MAC key.
pub const STORAGE_KEY_LEN: usize = 36;

/// Length of the database key.
pub const DATABASE_KEY_LEN: usize = 32;

/// Length of the initialization vector that precedes every ciphertext.
pub const IV_LEN: usize = 16;

/// Length of the HMAC-SHA256 tag that follows every ciphertext.
pub const MAC_LEN: usize = 32;

/// PBKDF2 rounds of the storage key.
pub const STORAGE_KEY_ROUNDS: u32 = 1024;

/// Errors of the storage encryption.
#[derive(Debug, Clone, Copy, PartialEq, Eq, Structural)]
pub enum StorageError {
    /// The tag of an encrypted message does not match.
    MacVerificationFailed,
    /// The tag of an encrypted file does not match.
    MacError,
    /// The ciphertext is not block-aligned or its padding is malformed.
    DecryptionFailed,
    /// An encrypted file is shorter than its IV and tag.
    FileTooSmall,
    /// The cipher could not be set up with the storage key.
    CbcInitialization,
    /// The MAC could not be set up with the storage key.
    MacKeyLength,
    /// The database key could not be derived.
    DatabaseKeyDerivation,
}

/// The message of each error.
pub open spec fn storage_error_message(e: StorageError) -> Seq<char> {
    match e {
        StorageError::MacVerificationFailed => "MAC verification failed"@,
        StorageError::MacError => "MAC error"@,
        StorageError::DecryptionFailed => "AES CBC decryption error"@,
        StorageError::FileTooSmall => "File smaller than cryptographic overhead"@,
        StorageError::CbcInitialization => "CBC initialization error"@,
        StorageError::MacKeyLength => "MAC keylength error"@,
        StorageError::DatabaseKeyDerivation => "Cannot compute database key"@,
    }
}

impl StorageError {
    /// The human-readable message of the error.
    pub fn to_string(&self) -> (res: String)
        ensures
            res@ == storage_error_message(*self),
    {
        match self {
            StorageError::MacVerificationFailed => String::from_str("MAC verification failed"),
            StorageError::MacError => String::from_str("MAC error"),
            StorageError::DecryptionFailed => String::from_str("AES CBC decryption error"),
            StorageError::FileTooSmall => String::from_str(
                "File smaller than cryptographic overhead",
            ),
            StorageError::CbcInitialization => String::from_str("CBC initialization error"),
            StorageError::MacKeyLength => String::from_str("MAC keylength error"),
            StorageError::DatabaseKeyDerivation => String::from_str(
                "Cannot compute database key",
            ),
        }
    }
}

/// The AES part of a storage key.
pub open spec fn aes_key_of(k: Seq<u8>) -> Seq<u8> {
    k.subrange(0, 16)
}

/// The MAC part of a storage key.
pub open spec fn mac_key_of(k: Seq<u8>) -> Seq<u8> {
    k.subrange(16, k.len() as int)
}

/// The ciphertext of `m` under storage key `k` and IV `iv`.
pub open spec fn ciphertext_of(k: Seq<u8>, iv: Seq<u8>, m: Seq<u8>) -> Seq<u8> {
    aes128_cbc_encrypt_blocks(aes_key_of(k), iv, pkcs7_pad(m))
}

/// The stored form of `m` under key `k` with IV `iv`:
/// `iv || ciphertext || HMAC(iv || ciphertext)`.
pub open spec fn sealed(k: Seq<u8>, iv: Seq<u8>, m: Seq<u8>) -> Seq<u8> {
    let ct = ciphertext_of(k, iv, m);
    iv + ct + hmac_sha256(mac_key_of(k), iv + ct)
}

/// `data` is the stored form of `m` under key `k` for some 16-byte IV (with
/// a ciphertext as long as the padded message and a 32-byte tag).
pub open spec fn is_sealed_form(k: Seq<u8>, m: Seq<u8>, data: Seq<u8>) -> bool {
    exists|iv: Seq<u8>|
        {
            &&& iv.len() == 16
            &&& #[trigger] sealed(k, iv, m) == data
            &&& ciphertext_of(k, iv, m).len() == pkcs7_pad(m).len()
            &&& hmac_sha256(mac_key_of(k), iv + ciphertext_of(k, iv, m)).len() == 32
        }
}

/// The IV of a stored message.
pub open spec fn iv_part(d: Seq<u8>) -> Seq<u8> {
    d.subrange(0, 16)
}

/// The ciphertext of a stored message (between the IV and the tag).
pub open spec fn ciphertext_part(d: Seq<u8>) -> Seq<u8> {
    d.subrange(16, d.len() - 32)
}

/// The tag of a stored message (its last 32 bytes).
pub open spec fn tag_part(d: Seq<u8>) -> Seq<u8> {
    d.subrange(d.len() - 32, d.len() as int)
}

/// The tag of the stored message `d` is the HMAC of its IV and ciphertext.
pub open spec fn tag_matches(k: Seq<u8>, d: Seq<u8>) -> bool {
    tag_part(d) == hmac_sha256(mac_key_of(k), iv_part(d) + ciphertext_part(d))
}

/// The raw (still padded) decryption of the ciphertext of `d`.
pub open spec fn raw_plaintext(k: Seq<u8>, d: Seq<u8>) -> Seq<u8> {
    aes128_cbc_decrypt_blocks(aes_key_of(k), iv_part(d), ciphertext_part(d))
}

/// Copies `v[start..end]` into a new vector.
fn copy_range(v: &[u8], start: usize, end: usize) -> (res: Vec<u8>)
    requires
        start <= end <= v@.len(),
    ensures
        res@ == v@.subrange(start as int, end as int),
{
    let mut res: Vec<u8> = Vec::new();
    let mut i = start;
    while i < end
        invariant
            start <= i <= end,
            end <= v@.len(),
            res@ == v@.subrange(start as int, i as int),
        decreases end - i,
    {
        res.push(v[i]);
        proof {
            assert(res@ =~= v@.subrange(start as int, i + 1));
        }
        i = i + 1;
    }
    res
}

/// A fresh random 16-byte initialization vector.
fn random_iv() -> (res: Vec<u8>)
    ensures
        res@.len() == 16,
{
    let mut iv: Vec<u8> = Vec::new();
    let mut i: usize = 0;
    while i < 16
        invariant
            i <= 16,
            iv@.len() == i,
        decreases 16 - i,
    {
        iv.push(0u8);
        i = i + 1;
    }
    let mut rng = thread_rng();
    fill_bytes(&mut rng, iv.as_mut_slice());
    iv
}

/// The storage and database keys, derived from the password.
#[derive(Clone)]
pub struct StorageEncryption {
    /// Key for local files.
    key_storage: [u8; 36],
    /// Key for the sqlite database.
    key_database: [u8; 32],
}

/// The parts of a stored message: a stored form of `m` has the ciphertext
/// of the padded `m` between its IV and its tag, and a matching tag.
pub proof fn lemma_sealed_parts(k: Seq<u8>, m: Seq<u8>, d: Seq<u8>)
    requires
        is_sealed_form(k, m, d),
    ensures
        d.len() >= 48,
        tag_matches(k, d),
        ciphertext_part(d) == aes128_cbc_encrypt_blocks(aes_key_of(k), iv_part(d), pkcs7_pad(m)),
        ciphertext_part(d).len() % 16 == 0,
        ciphertext_part(d).len() == pkcs7_pad(m).len(),
{
    let iv = choose|iv: Seq<u8>|
        {
            &&& iv.len() == 16
            &&& #[trigger] sealed(k, iv, m) == d
            &&& ciphertext_of(k, iv, m).len() == pkcs7_pad(m).len()
            &&& hmac_sha256(mac_key_of(k), iv + ciphertext_of(k, iv, m)).len() == 32
        };
    let ct = ciphertext_of(k, iv, m);
    let tag = hmac_sha256(mac_key_of(k), iv + ct);
    lemma_pkcs7_unpad_pad(m);
    assert(d == iv + ct + tag);
    assert(iv_part(d) =~= iv);
    assert(ciphertext_part(d) =~= ct);
    assert(tag_part(d) =~= tag);
}

impl StorageEncryption {
    /// The 36-byte key of the local files.
    pub closed spec fn storage_key(self) -> Seq<u8> {
        self.key_storage@
    }

    /// The 32-byte key of the database.
    pub closed spec fn database_key(self) -> Seq<u8> {
        self.key_database@
    }

    /// Derives the storage key (PBKDF2-HMAC-SHA1, 1024 rounds, 36 bytes)
    /// and the database key (scrypt with `log_n = 14, r = 8, p = 1`, 32
    /// bytes) from the password and the two salts.
    pub fn new(password: String, salt_storage: [u8; 8], salt_database: [u8; 8]) -> (res: Result<
        Self,
        StorageError,
    >)
        ensures
            res is Ok,
            res is Ok ==> res->Ok_0.storage_key() == pbkdf2_hmac_sha1(
                vstd::utf8::encode_utf8(password@),
                salt_storage@,
                1024,
                36,
            ),
            res is Ok ==> res->Ok_0.database_key() == scrypt_key(
                vstd::utf8::encode_utf8(password@),
                salt_database@,
                (14u8, 8u32, 1u32),
                32,
            ),
            res is Ok ==> res->Ok_0.storage_key().len() == 36,
            res is Ok ==> res->Ok_0.database_key().len() == 32,
    {
        let password = password.as_str();
        let key_storage = derive_storage_key(password, &salt_storage);
        let key_database = derive_db_key(password, &salt_database)?;
        Ok(Self { key_storage, key_database })
    }

    /// Encrypts `msg` in place with the storage key: the result is a fresh
    /// random IV, the AES-128-CBC ciphertext of the PKCS#7-padded message
    /// and the HMAC-SHA256 tag of IV and ciphertext.  Its length is the
    /// padded length plus 48.
    pub fn encrypt(&self, msg: &mut Vec<u8>)
        requires
            old(msg)@.len() + 64 <= usize::MAX,
        ensures
            is_sealed_form(self.storage_key(), old(msg)@, final(msg)@),
            final(msg)@.len() == pkcs7_pad(old(msg)@).len() + 48,
    {
        let ghost m = msg@;
        let ghost k = self.storage_key();
        // Generate random IV
        let mut iv = random_iv();

        // Create cipher object
        let aes_key = copy_range(&self.key_storage, 0, 16);
        let cipher = match aes_cbc_new(aes_key.as_slice(), iv.as_slice()) {
            Ok(c) => c,
            Err(_) => {
                proof {
                    assert(false);
                }
                return ;
            },
        };

        // Padding is always necessary, even if the message length is a
        // multiple of the block size; in that case a whole block is added.
        let msg_len = msg.len();
        let padding_len = AES_BLOCK_SIZE - (msg_len % AES_BLOCK_SIZE);
        msg.resize(msg_len + padding_len, 0u8);

        let ghost resized = msg@;
        proof {
            assert(resized.take(msg_len as int) =~= m);
        }
        // Encrypt the message in place
        let encrypted = aes_cbc_encrypt(cipher, msg, msg_len);
        proof {
            assert(msg_len + padding_len == 16 * (msg_len / 16) + 16);
            assert(old(msg)@ =~= m);
        }
        let ct = match encrypted {
            Ok(ct) => ct,
            Err(_) => {
                proof {
                    assert(false);
                }
                return ;
            },
        };
        proof {
            lemma_pkcs7_unpad_pad(m);
            assert(msg@ =~= ct@);
        }

        // Create HMAC SHA256, 32 bytes
        let mac_key = copy_range(&self.key_storage, 16, 36);
        let mut mac = match hmac_new(mac_key.as_slice()) {
            Ok(mac) => mac,
            Err(_) => {
                proof {
                    assert(false);
                }
                return ;
            },
        };
        hmac_update(&mut mac, iv.as_slice());
        hmac_update(&mut mac, msg.as_slice());
        let mut tag = hmac_finalize(mac);

        // IV, ciphertext, MAC
        let ghost iv_seq = iv@;
        let ghost ct_seq = msg@;
        let ghost tag_seq = tag@;
        iv.append(msg);
        iv.append(&mut tag);
        *msg = iv;
        proof {
            assert(aes_key@ == aes_key_of(k));
            assert(mac_key@ == mac_key_of(k));
            assert(ct_seq == ciphertext_of(k, iv_seq, m));
            assert(Seq::<u8>::empty() + iv_seq =~= iv_seq);
            assert(tag_seq == hmac_sha256(mac_key_of(k), iv_seq + ct_seq));
            assert(msg@ == sealed(k, iv_seq, m));
        }
    }
    /// Decrypts `msg` in place: it must hold a 16-byte IV, a ciphertext and
    /// a 32-byte tag.  When the tag does not match the IV and ciphertext,
    /// the error is `MacVerificationFailed` and `msg` is unchanged.  When
    /// the ciphertext is not block-aligned, or decrypts to malformed
    /// padding, the error is `DecryptionFailed` (with the ciphertext region
    /// decrypted in place in the second case).  Otherwise `msg` becomes the
    /// plaintext.  Whatever `encrypt` produced with the same key decrypts to
    /// the message it was made from.
    pub fn decrypt(&self, msg: &mut Vec<u8>) -> (res: Result<(), StorageError>)
        requires
            old(msg)@.len() >= 48,
        ensures
            !tag_matches(self.storage_key(), old(msg)@) ==> res == Err::<(), StorageError>(
                StorageError::MacVerificationFailed,
            ) && final(msg)@ == old(msg)@,
            tag_matches(self.storage_key(), old(msg)@) && ciphertext_part(old(msg)@).len() % 16
                != 0 ==> res == Err::<(), StorageError>(StorageError::DecryptionFailed)
                && final(msg)@ == old(msg)@,
            tag_matches(self.storage_key(), old(msg)@) && ciphertext_part(old(msg)@).len() % 16
                == 0 ==> match pkcs7_unpad_len(raw_plaintext(self.storage_key(), old(msg)@)) {
                None => res == Err::<(), StorageError>(StorageError::DecryptionFailed)
                    && final(msg)@ == iv_part(old(msg)@) + raw_plaintext(
                    self.storage_key(),
                    old(msg)@,
                ) + tag_part(old(msg)@),
                Some(n) => res is Ok && final(msg)@ == raw_plaintext(
                    self.storage_key(),
                    old(msg)@,
                ).take(n as int),
            },
            forall|m: Seq<u8>|
                #[trigger] is_sealed_form(self.storage_key(), m, old(msg)@) ==> res is Ok
                    && final(msg)@ == m,
    {
        let ghost d = msg@;
        let ghost k = self.storage_key();
        let len = msg.len();
        let iv = copy_range(msg.as_slice(), 0, 16);
        let mut content = copy_range(msg.as_slice(), 16, len - 32);
        let tag = copy_range(msg.as_slice(), len - 32, len);
        proof {
            assert(iv@ == iv_part(d));
            assert(content@ == ciphertext_part(d));
            assert(tag@ == tag_part(d));
        }

        // Verify HMAC SHA256
        let mac_key = copy_range(&self.key_storage, 16, 36);
        let mut verifier = match hmac_new(mac_key.as_slice()) {
            Ok(v) => v,
            Err(_) => {
                proof {
                    assert(false);
                }
                return Err(StorageError::MacKeyLength);
            },
        };
        hmac_update(&mut verifier, iv.as_slice());
        hmac_update(&mut verifier, content.as_slice());
        proof {
            assert(Seq::<u8>::empty() + iv@ =~= iv@);
            assert(mac_key@ == mac_key_of(k));
        }
        match hmac_verify(verifier, tag.as_slice()) {
            Ok(()) => {},
            Err(_) => {
                proof {
                    assert forall|m: Seq<u8>| !is_sealed_form(k, m, d) by {
                        if is_sealed_form(k, m, d) {
                            lemma_sealed_parts(k, m, d);
                        }
                    }
                }
                return Err(StorageError::MacVerificationFailed);
            },
        }

        // Decrypt message
        let aes_key = copy_range(&self.key_storage, 0, 16);
        let cipher = match aes_cbc_new(aes_key.as_slice(), iv.as_slice()) {
            Ok(c) => c,
            Err(_) => {
                proof {
                    assert(false);
                }
                return Err(StorageError::CbcInitialization);
            },
        };
        proof {
            assert(aes_key@ == aes_key_of(k));
        }
        let ghost ct = content@;
        match aes_cbc_decrypt(cipher, &mut content) {
            Ok(cleartext) => {
                proof {
                    assert forall|m: Seq<u8>| #[trigger] is_sealed_form(k, m, d) implies cleartext@
                        == m by {
                        lemma_sealed_parts(k, m, d);
                        lemma_pkcs7_unpad_pad(m);
                    }
                }
                *msg = cleartext;
                Ok(())
            },
            Err(_) => {
                proof {
                    assert forall|m: Seq<u8>| !is_sealed_form(k, m, d) by {
                        if is_sealed_form(k, m, d) {
                            lemma_sealed_parts(k, m, d);
                            lemma_pkcs7_unpad_pad(m);
                        }
                    }
                }
                let mut rebuilt = iv;
                let mut rest = content;
                let mut tag = tag;
                rebuilt.append(&mut rest);
                rebuilt.append(&mut tag);
                proof {
                    assert(iv_part(d) + ciphertext_part(d) + tag_part(d) =~= d);
                }
                *msg = rebuilt;
                Err(StorageError::DecryptionFailed)
            },
        }
    }

    /// The database key.
    pub fn get_database_key(&self) -> (res: &[u8])
        ensures
            res@ == self.database_key(),
    {
        self.key_database.as_slice()
    }
}

/// Encrypts the contents of a storage file with the 36-byte storage key:
/// a fresh random IV, the AES-128-CBC ciphertext of the PKCS#7-padded
/// contents, and the HMAC-SHA256 tag of IV and ciphertext.  This is the
/// same format as `StorageEncryption::encrypt`.
pub fn encrypt_file_contents(keys: &[u8; 36], contents: &[u8]) -> (res: Result<Vec<u8>, StorageError>)
    requires
        contents@.len() + 64 <= usize::MAX,
    ensures
        res is Ok,
        res is Ok ==> is_sealed_form(keys@, contents@, res->Ok_0@),
        res is Ok ==> res->Ok_0@.len() == pkcs7_pad(contents@).len() + 48,
{
    let ghost k = keys@;
    // Generate random IV
    let mut iv = random_iv();

    // Encrypt
    let aes_key = copy_range(keys, 0, 16);
    let cipher = match aes_cbc_new(aes_key.as_slice(), iv.as_slice()) {
        Ok(c) => c,
        Err(_) => {
            return Err(StorageError::CbcInitialization);
        },
    };
    let mut ciphertext = aes_cbc_encrypt_vec(cipher, contents);

    // HMAC SHA256 of IV and ciphertext
    let mac_key = copy_range(keys, 16, 36);
    let mut mac = match hmac_new(mac_key.as_slice()) {
        Ok(mac) => mac,
        Err(_) => {
            return Err(StorageError::MacKeyLength);
        },
    };
    hmac_update(&mut mac, iv.as_slice());
    hmac_update(&mut mac, ciphertext.as_slice());
    let mut tag = hmac_finalize(mac);

    // iv, ciphertext, mac
    let ghost iv_seq = iv@;
    let ghost ct_seq = ciphertext@;
    let ghost tag_seq = tag@;
    iv.append(&mut ciphertext);
    iv.append(&mut tag);
    proof {
        assert(aes_key@ == aes_key_of(k));
        assert(mac_key@ == mac_key_of(k));
        assert(Seq::<u8>::empty() + iv_seq =~= iv_seq);
        assert(ct_seq == ciphertext_of(k, iv_seq, contents@));
        assert(iv@ == sealed(k, iv_seq, contents@));
        lemma_pkcs7_unpad_pad(contents@);
    }
    Ok(iv)
}

/// Decrypts the contents of a storage file with the 36-byte storage key.
/// Contents shorter than IV and tag are refused with `FileTooSmall`; a tag
/// that does not match IV and ciphertext with `MacError`; a ciphertext that
/// is not block-aligned or decrypts to malformed padding with
/// `DecryptionFailed`.  Otherwise the plaintext is returned; whatever
/// `encrypt_file_contents` or `StorageEncryption::encrypt` produced with
/// the same key decrypts to the contents it was made from.
pub fn decrypt_file_contents(keys: &[u8; 36], contents: &[u8]) -> (res: Result<Vec<u8>, StorageError>)
    ensures
        contents@.len() < 48 ==> res == Err::<Vec<u8>, StorageError>(StorageError::FileTooSmall),
        contents@.len() >= 48 && !tag_matches(keys@, contents@) ==> res == Err::<
            Vec<u8>,
            StorageError,
        >(StorageError::MacError),
        contents@.len() >= 48 && tag_matches(keys@, contents@) && ciphertext_part(contents@).len()
            % 16 != 0 ==> res == Err::<Vec<u8>, StorageError>(StorageError::DecryptionFailed),
        contents@.len() >= 48 && tag_matches(keys@, contents@) && ciphertext_part(contents@).len()
            % 16 == 0 ==> match pkcs7_unpad_len(raw_plaintext(keys@, contents@)) {
            None => res == Err::<Vec<u8>, StorageError>(StorageError::DecryptionFailed),
            Some(n) => res is Ok && res->Ok_0@ == raw_plaintext(keys@, contents@).take(n as int),
        },
        forall|m: Seq<u8>| #[trigger] is_sealed_form(keys@, m, contents@) ==> res is Ok && res->Ok_0@ == m,
{
    let ghost d = contents@;
    let ghost k = keys@;
    let count = contents.len();
    if count < 48 {
        proof {
            assert forall|m: Seq<u8>| !is_sealed_form(k, m, d) by {
                if is_sealed_form(k, m, d) {
                    lemma_sealed_parts(k, m, d);
                }
            }
        }
        return Err(StorageError::FileTooSmall);
    }
    let iv = copy_range(contents, 0, 16);
    let mut ciphertext = copy_range(contents, 16, count - 32);
    let tag = copy_range(contents, count - 32, count);

    // Verify HMAC SHA256, 32 last bytes
    let mac_key = copy_range(keys, 16, 36);
    let mut verifier = match hmac_new(mac_key.as_slice()) {
        Ok(v) => v,
        Err(_) => {
            proof {
                assert(false);
            }
            return Err(StorageError::MacKeyLength);
        },
    };
    hmac_update(&mut verifier, iv.as_slice());
    hmac_update(&mut verifier, ciphertext.as_slice());
    proof {
        assert(Seq::<u8>::empty() + iv@ =~= iv@);
        assert(mac_key@ == mac_key_of(k));
    }
    match hmac_verify(verifier, tag.as_slice()) {
        Ok(()) => {},
        Err(_) => {
            proof {
                assert forall|m: Seq<u8>| !is_sealed_form(k, m, d) by {
                    if is_sealed_form(k, m, d) {
                        lemma_sealed_parts(k, m, d);
                    }
                }
            }
            return Err(StorageError::MacError);
        },
    }

    // Decrypt
    let aes_key = copy_range(keys, 0, 16);
    let cipher = match aes_cbc_new(aes_key.as_slice(), iv.as_slice()) {
        Ok(c) => c,
        Err(_) => {
            proof {
                assert(false);
            }
            return Err(StorageError::CbcInitialization);
        },
    };
    proof {
        assert(aes_key@ == aes_key_of(k));
    }
    match aes_cbc_decrypt(cipher, &mut ciphertext) {
        Ok(cleartext) => {
            proof {
                assert forall|m: Seq<u8>| #[trigger] is_sealed_form(k, m, d) implies cleartext@
                    == m by {
                    lemma_sealed_parts(k, m, d);
                    lemma_pkcs7_unpad_pad(m);
                }
            }
            Ok(cleartext)
        },
        Err(_) => {
            proof {
                assert forall|m: Seq<u8>| !is_sealed_form(k, m, d) by {
                    if is_sealed_form(k, m, d) {
                        lemma_sealed_parts(k, m, d);
                        lemma_pkcs7_unpad_pad(m);
                    }
                }
            }
            Err(StorageError::DecryptionFailed)
        },
    }
}

/// Derives the 36-byte storage key from the password and the storage salt
/// with PBKDF2-HMAC-SHA1 in 1024 rounds.
pub fn derive_storage_key(password: &str, salt: &[u8; 8]) -> (res: [u8; 36])
    ensures
        res@ == pbkdf2_hmac_sha1(vstd::utf8::encode_utf8(password@), salt@, 1024, 36),
{
    let mut key = [0u8; 36];
    pbkdf2_sha1(password.as_bytes(), salt, STORAGE_KEY_ROUNDS, &mut key);
    key
}

/// Derives the 32-byte database key from the password and the database
/// salt with scrypt (`log_n = 14, r = 8, p = 1`).  The parameters and the
/// output length are valid, so this succeeds.
pub fn derive_db_key(password: &str, salt: &[u8; 8]) -> (res: Result<[u8; 32], StorageError>)
    ensures
        res is Ok,
        res is Ok ==> res->Ok_0@ == scrypt_key(
            vstd::utf8::encode_utf8(password@),
            salt@,
            (14u8, 8u32, 1u32),
            32,
        ),
{
    proof {
        vstd::arithmetic::power2::lemma2_to64();
    }
    let params = match scrypt_params(14, 8, 1) {
        Ok(p) => p,
        Err(_) => {
            return Err(StorageError::DatabaseKeyDerivation);
        },
    };
    let mut key = [0u8; 32];
    match scrypt_derive(password.as_bytes(), salt, &params, &mut key) {
        Ok(()) => Ok(key),
        Err(_) => Err(StorageError::DatabaseKeyDerivation),
    }
}

} // verus!
