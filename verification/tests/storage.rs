use block_modes::block_padding::Pkcs7;
use block_modes::{BlockMode, Cbc};
use hmac::{Hmac, Mac, NewMac};
use rand::RngCore;
use whisperfish::encryption::{
    decrypt_file_contents, derive_db_key, derive_storage_key, encrypt_file_contents,
    StorageEncryption, StorageError,
};
use whisperfish::fingerprint::pad_fingerprint;
use whisperfish::hex::{database_key_pragma, peer_identity_hex};

const AES_BLOCK_SIZE: usize = 16;

fn crypto(password: &str) -> StorageEncryption {
    StorageEncryption::new(String::from(password), [0u8; 8], [0u8; 8]).unwrap()
}

#[test]
fn pad_fingerprint_smoke() {
    let mut s = "892064087450853131489552767731995657884565179277972848560834".to_string();
    pad_fingerprint(&mut s);
    assert_eq!(
        s,
        "89206 40874 50853 13148 95527 67731 99565 78845 65179 27797 28485 60834"
    );
}

#[test]
fn pad_fingerprint_leaves_other_lengths() {
    let mut s = "12345".to_string();
    pad_fingerprint(&mut s);
    assert_eq!(s, "12345");
}

#[test]
fn encrypt_and_decrypt_file() {
    let contents = "The funny horse jumped over a river.";

    // Key full of ones.
    let key = [1u8; 16 + 20];

    let sealed = encrypt_file_contents(&key, contents.as_bytes()).unwrap();
    let res = decrypt_file_contents(&key, &sealed).unwrap();
    assert_eq!(std::str::from_utf8(&res).expect("utf8"), contents);
}

#[test]
fn crypto_encrypt_decrypt() {
    let crypto = crypto("my secret key");

    let cleartext = b"my secret message";
    let mut ciphertext = cleartext.to_vec();

    // First, encrypt ciphertext.
    crypto.encrypt(&mut ciphertext);

    // The ciphertext differs from the cleartext (IV ignored, and the length
    // of the cleartext used to ignore any padding).
    assert_ne!(cleartext[..], ciphertext[16..16 + cleartext.len()]);

    // Then, decrypt ciphertext.
    crypto.decrypt(&mut ciphertext).unwrap();

    assert_eq!(cleartext, ciphertext.as_slice());
}

#[test]
fn crypto_invalid_key() {
    let crypto = crypto("my secret key");
    let cleartext = b"my secret message";
    let mut ciphertext = cleartext.to_vec();
    crypto.encrypt(&mut ciphertext);

    let crypto = self::crypto("my other secret key");

    // Decryption fails because of the wrong HMAC.
    assert_eq!(
        crypto.decrypt(&mut ciphertext).unwrap_err().to_string(),
        "MAC verification failed"
    );
}

#[test]
fn check_padding_length() {
    let crypto = crypto("my secret key");

    // A cleartext of one block gets a whole block of padding.
    let mut cleartext = vec![1u8; AES_BLOCK_SIZE];
    crypto.encrypt(&mut cleartext);
    assert_eq!(cleartext.len(), 2 * AES_BLOCK_SIZE + 16 + 32);

    // One byte more: padded to two blocks.
    let mut cleartext = vec![1u8; AES_BLOCK_SIZE + 1];
    crypto.encrypt(&mut cleartext);
    assert_eq!(cleartext.len(), 2 * AES_BLOCK_SIZE + 16 + 32);

    // One byte less: padded to one block.
    let mut cleartext = vec![1u8; AES_BLOCK_SIZE - 1];
    crypto.encrypt(&mut cleartext);
    assert_eq!(cleartext.len(), AES_BLOCK_SIZE + 16 + 32);
}

#[test]
fn previous_implementation_encrypt_current_implementation_decrypt() {

    let my_key = String::from("my secret key");
    let my_salt = [0u8; 8];
    let my_cleartext = b"my secret message";
    let mut my_ciphertext = std::vec::Vec::new();

    // First, encrypt with the previous implementation.
    let mut key = [0u8; 16 + 20];
    pbkdf2::pbkdf2::<Hmac<sha1::Sha1>>(my_key.as_bytes(), &my_salt, 1024, &mut key);

    let mut iv = [0u8; 16];
    rand::thread_rng().fill_bytes(&mut iv);

    let ciphertext = {
        let cipher = Cbc::<aes::Aes128, Pkcs7>::new_from_slices(&key[0..16], &iv)
            .expect("CBC initialization error");
        cipher.encrypt_vec(my_cleartext)
    };

    let mac = {
        let mut mac = Hmac::<sha2::Sha256>::new_from_slice(&key[16..]).expect("MAC keylength error");
        mac.update(&iv);
        mac.update(&ciphertext);
        mac.finalize().into_bytes()
    };

    my_ciphertext.append(&mut iv.to_vec());
    my_ciphertext.append(&mut ciphertext.to_vec());
    my_ciphertext.append(&mut mac.to_vec());

    // Now, use the current implementation.
    let crypto = StorageEncryption::new(my_key, my_salt, my_salt).unwrap();
    crypto.decrypt(&mut my_ciphertext).unwrap();

    assert_eq!(my_cleartext, my_ciphertext.as_slice());
}

#[test]
fn storage_key_is_pbkdf2_sha1() {
    let mut expected = [0u8; 36];
    pbkdf2::pbkdf2::<Hmac<sha1::Sha1>>(b"pass", &[7u8; 8], 1024, &mut expected);
    assert_eq!(derive_storage_key("pass", &[7u8; 8]), expected);
    assert_ne!(derive_storage_key("pass", &[8u8; 8]), expected);
}

#[test]
fn database_key_is_scrypt() {
    let params = scrypt::Params::new(14, 8, 1).unwrap();
    let mut expected = [0u8; 32];
    scrypt::scrypt(b"pass", &[3u8; 8], &params, &mut expected).unwrap();
    let key = derive_db_key("pass", &[3u8; 8]).unwrap();
    assert_eq!(key, expected);
    let crypto = StorageEncryption::new("pass".to_string(), [0u8; 8], [3u8; 8]).unwrap();
    assert_eq!(crypto.get_database_key(), &expected[..]);
}

#[test]
fn file_too_small_is_refused() {
    let key = [1u8; 36];
    assert_eq!(
        decrypt_file_contents(&key, &[0u8; 47]),
        Err(StorageError::FileTooSmall)
    );
    assert_eq!(
        StorageError::FileTooSmall.to_string(),
        "File smaller than cryptographic overhead"
    );
}

#[test]
fn tampered_file_gives_mac_error() {
    let key = [1u8; 36];
    let mut sealed = encrypt_file_contents(&key, b"hello").unwrap();
    sealed[20] ^= 1;
    assert_eq!(decrypt_file_contents(&key, &sealed), Err(StorageError::MacError));
    let other = [2u8; 36];
    let sealed = encrypt_file_contents(&key, b"hello").unwrap();
    assert_eq!(decrypt_file_contents(&other, &sealed), Err(StorageError::MacError));
}

#[test]
fn unaligned_ciphertext_gives_decryption_error() {
    let key = [1u8; 36];
    // IV, 5 bytes of "ciphertext", and a correct tag over both.
    let mut contents = vec![9u8; 16];
    contents.extend_from_slice(&[1, 2, 3, 4, 5]);
    let mut mac = Hmac::<sha2::Sha256>::new_from_slice(&key[16..]).unwrap();
    mac.update(&contents);
    let tag = mac.finalize().into_bytes();
    contents.extend_from_slice(&tag);
    assert_eq!(
        decrypt_file_contents(&key, &contents),
        Err(StorageError::DecryptionFailed)
    );
    let crypto_key = crypto("x");
    let mut msg = contents.clone();
    // Under another key the tag does not match, and the message is kept.
    assert_eq!(
        crypto_key.decrypt(&mut msg),
        Err(StorageError::MacVerificationFailed)
    );
    assert_eq!(msg, contents);
}

#[test]
fn sealed_length_is_padded_length_plus_overhead() {
    let key = [5u8; 36];
    for n in [0usize, 1, 15, 16, 17, 31, 32, 100] {
        let sealed = encrypt_file_contents(&key, &vec![0xabu8; n]).unwrap();
        assert_eq!(sealed.len(), (n / 16 + 1) * 16 + 48);
        assert_eq!(decrypt_file_contents(&key, &sealed).unwrap(), vec![0xabu8; n]);
    }
}

#[test]
fn file_and_message_formats_agree() {
    let crypto = crypto("my secret key");
    let mut msg = b"shared format".to_vec();
    crypto.encrypt(&mut msg);
    let key = derive_storage_key("my secret key", &[0u8; 8]);
    assert_eq!(decrypt_file_contents(&key, &msg).unwrap(), b"shared format".to_vec());
}

#[test]
fn key_pragma_and_peer_identity() {
    assert_eq!(
        database_key_pragma(&[0x01, 0xab, 0xff]),
        "PRAGMA key = \"x'01abff'\";"
    );
    assert_eq!(peer_identity_hex(&[0x05, 0xab, 0x0f]), "05AB0F");
}

#[test]
fn fresh_iv_for_each_encryption() {
    let key = [3u8; 36];
    let a = encrypt_file_contents(&key, b"same").unwrap();
    let b = encrypt_file_contents(&key, b"same").unwrap();
    assert_eq!(a.len(), b.len());
    assert_ne!(a[..16], b[..16]);
    assert_eq!(decrypt_file_contents(&key, &a).unwrap(), b"same".to_vec());
    assert_eq!(decrypt_file_contents(&key, &b).unwrap(), b"same".to_vec());
}
