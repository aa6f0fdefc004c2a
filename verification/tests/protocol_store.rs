use whisperfish::decimal::{decimal_i32, decimal_u32, decimal_u32_padded, parse_i32, parse_u32};
use whisperfish::migration::{
    identity_key_format, parse_identity_file_name, parse_session_file_name, IdentityKeyFormat,
};
use whisperfish::protocol_store::{
    addr_to_path_component, highest_key_id, identity_file_name, is_trusted_identity,
    key_file_id_of, key_file_name, next_pre_key_ids, session_file_device_id,
    session_file_is_deletable, session_file_name, sessions_to_delete, sub_device_session_ids,
    ProtocolStore, ProtocolStoreError,
};
use whisperfish::quirk::{quirk_identity, unquirk_identity, QuirkError, DJB_TYPE};

fn names(list: &[&str]) -> Vec<Vec<u8>> {
    list.iter().map(|s| s.as_bytes().to_vec()).collect()
}

#[test]
fn invalid_store_is_empty() {
    let store = ProtocolStore::invalid();
    assert_eq!(store.local_registration_id(), 0);
    assert!(store.identity_key_file_contents().is_empty());
}

#[test]
fn key_pair_round_trip() {
    let mut public = vec![DJB_TYPE];
    public.extend((1..=32).map(|i| i as u8));
    let private: Vec<u8> = (100..132).map(|i| i as u8).collect();
    let store = ProtocolStore::from_key_pair(&public, &private, 12345);
    assert_eq!(store.identity_key_file_contents().len(), 64);
    assert_eq!(&store.identity_key_file_contents()[..32], &public[1..]);
    let (p, q) = store.identity_key_pair();
    assert_eq!(p, public);
    assert_eq!(q, private);
    assert_eq!(store.regid_file_contents(), b"12345".to_vec());
}

#[test]
fn open_reads_registration_id() {
    let store = ProtocolStore::open(b"12345", vec![1, 2, 3]).ok().unwrap();
    assert_eq!(store.local_registration_id(), 12345);
    assert_eq!(store.identity_key_file_contents(), vec![1, 2, 3]);
    let written = ProtocolStore::open(b"4294967295", vec![]).ok().unwrap();
    let reopened =
        ProtocolStore::open(&written.regid_file_contents(), vec![]).ok().unwrap();
    assert_eq!(reopened.local_registration_id(), u32::MAX);
}

#[test]
fn open_refuses_bad_registration_id() {
    assert_eq!(
        ProtocolStore::open(&[0xff, 0xfe], vec![]).err(),
        Some(ProtocolStoreError::InvalidRegistrationIdText)
    );
    assert_eq!(
        ProtocolStore::open(b"12a", vec![]).err(),
        Some(ProtocolStoreError::InvalidRegistrationId)
    );
    assert_eq!(
        ProtocolStore::open(b"4294967296", vec![]).err(),
        Some(ProtocolStoreError::InvalidRegistrationId)
    );
    assert_eq!(
        ProtocolStore::open(b"", vec![]).err(),
        Some(ProtocolStoreError::InvalidRegistrationId)
    );
}

#[test]
fn decimal_text_matches_std() {
    for n in [0u32, 7, 10, 99, 12345, u32::MAX] {
        assert_eq!(decimal_u32(n), n.to_string().into_bytes());
        assert_eq!(decimal_u32_padded(n, 9), format!("{:09}", n).into_bytes());
        assert_eq!(parse_u32(n.to_string().as_bytes()), Some(n));
    }
    for n in [0i32, 1, -1, 42, -42, i32::MIN, i32::MAX] {
        assert_eq!(decimal_i32(n), n.to_string().into_bytes());
        assert_eq!(parse_i32(n.to_string().as_bytes()), Some(n));
    }
    assert_eq!(parse_u32(b"+5"), Some(5));
    assert_eq!(parse_u32(b"-5"), None);
    assert_eq!(parse_u32(b"+"), None);
    assert_eq!(parse_i32(b"-2147483649"), None);
    assert_eq!(parse_i32(b"007"), Some(7));
}

#[test]
fn path_component_drops_plus() {
    assert_eq!(addr_to_path_component(b"+32474123456"), "32474123456");
    assert_eq!(
        addr_to_path_component(b"64d41108-1d4b-4b71-91b8-4e0fb7cad444"),
        "64d41108-1d4b-4b71-91b8-4e0fb7cad444"
    );
}

#[test]
fn file_names() {
    assert_eq!(session_file_name(b"+32474123456", 1), b"32474123456_1".to_vec());
    assert_eq!(session_file_name(b"abc", -3), b"abc_-3".to_vec());
    assert_eq!(identity_file_name(b"+32474123456"), b"remote_32474123456".to_vec());
    assert_eq!(key_file_name(5), b"000000005".to_vec());
    assert_eq!(key_file_name(1234567890), b"1234567890".to_vec());
}

#[test]
fn session_file_device_ids() {
    assert_eq!(session_file_device_id(b"32474123456_2", b"32474123456"), Some(2));
    assert_eq!(session_file_device_id(b"32474123456_", b"32474123456"), None);
    assert_eq!(session_file_device_id(b"32474123456x2", b"32474123456"), None);
    assert_eq!(session_file_device_id(b"3247412345_2", b"32474123456"), None);
    assert_eq!(session_file_device_id(b"abc_-2", b"abc"), Some(-2));
    assert!(session_file_is_deletable(b"abc_2", b"abc"));
    assert!(!session_file_is_deletable(b"abc_-2", b"abc"));
    assert!(!session_file_is_deletable(b"abd_2", b"abc"));
}

#[test]
fn sub_device_sessions_skip_primary_device() {
    let listing = names(&["123_1", "123_2", "1234_3", "123_x", "123_7", "12_4"]);
    assert_eq!(sub_device_session_ids(&listing, b"+123"), vec![2, 7]);
    assert_eq!(sessions_to_delete(&listing, b"+123"), vec![0, 1, 4]);
    assert_eq!(sessions_to_delete(&listing, b"12"), vec![5]);
}

#[test]
fn next_pre_key_ids_of_listing() {
    let empty: Vec<Vec<u8>> = vec![];
    assert_eq!(next_pre_key_ids(&empty, &empty), (0, 0));
    let prekeys = names(&["000000003", "000000010", "junk", "000000001"]);
    let signed = names(&["000000000"]);
    assert_eq!(highest_key_id(&prekeys), Some(10));
    assert_eq!(next_pre_key_ids(&prekeys, &signed), (1, 11));
    // The next id is written as a name that is read back as that id.
    assert_eq!(key_file_id_of(&key_file_name(11)), Some(11));
}

#[test]
fn trust_on_first_use() {
    assert!(is_trusted_identity(None, b"key"));
    assert!(is_trusted_identity(Some(b"key"), b"key"));
    assert!(!is_trusted_identity(Some(b"key"), b"kez"));
    assert!(!is_trusted_identity(Some(b"key"), b"keys"));
}

#[test]
fn quirk_and_unquirk_keys() {
    let mut key = vec![DJB_TYPE];
    key.extend([7u8; 32]);
    let unquirked = key.clone();
    assert_eq!(quirk_identity(&mut key), Ok(()));
    assert_eq!(key, vec![7u8; 32]);
    assert_eq!(quirk_identity(&mut key), Ok(()));
    assert_eq!(key.len(), 32);
    assert_eq!(unquirk_identity(&mut key), Ok(()));
    assert_eq!(key, unquirked);
    assert_eq!(unquirk_identity(&mut key), Ok(()));
    assert_eq!(key, unquirked);

    let mut bad = vec![9u8; 33];
    assert_eq!(quirk_identity(&mut bad), Err(QuirkError::InvalidKey));
    assert_eq!(bad.len(), 32);
    let mut short = vec![1u8; 31];
    assert_eq!(quirk_identity(&mut short), Err(QuirkError::InvalidKey));
    assert_eq!(unquirk_identity(&mut short), Err(QuirkError::InvalidKey));
    assert_eq!(short, vec![1u8; 31]);
}

#[test]
fn migration_file_names() {
    let parsed = parse_session_file_name(b"32474123456_1").unwrap();
    assert_eq!(parsed, (&b"32474123456"[..], 1));
    let parsed = parse_session_file_name(b"a_2_x").unwrap();
    assert_eq!(parsed, (&b"a"[..], 2));
    assert_eq!(parse_session_file_name(b"ab"), None);
    assert_eq!(parse_session_file_name(b"abc"), None);
    assert_eq!(parse_session_file_name(b"abc_"), None);
    assert_eq!(parse_session_file_name(b"abc_x"), None);
    assert_eq!(parse_session_file_name(&[0xff, b'_', b'1']), None);

    assert_eq!(
        parse_identity_file_name(b"remote_32474123456"),
        Some(&b"32474123456"[..])
    );
    assert_eq!(parse_identity_file_name(b"remote_a_b"), Some(&b"a"[..]));
    assert_eq!(parse_identity_file_name(b"remote"), None);
    assert_eq!(parse_identity_file_name(&[0xff]), None);

    assert_eq!(identity_key_format(&[0u8; 32]), Ok(IdentityKeyFormat::DjbPublicKey));
    assert_eq!(identity_key_format(&[0u8; 33]), Ok(IdentityKeyFormat::Encoded));
    assert_eq!(identity_key_format(&[0u8; 31]), Err(31));
}

#[test]
fn written_session_file_migrates() {
    let name = session_file_name(b"+32474123456", 3);
    assert_eq!(parse_session_file_name(&name), Some((&b"32474123456"[..], 3)));
}
