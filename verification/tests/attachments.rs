use whisperfish::attachments::{
    attachment_extension, checked_extension, corrected_extension, first_extension, strip_padding,
};

#[test]
fn fixed_extensions() {
    assert_eq!(attachment_extension("text/plain"), Some("txt".to_string()));
    assert_eq!(attachment_extension("image/jpeg"), Some("jpg".to_string()));
    assert_eq!(attachment_extension("image/jpg"), Some("jpg".to_string()));
    assert_eq!(attachment_extension("image/png"), Some("png".to_string()));
    assert_eq!(attachment_extension("text/x-signal-plain"), Some("txt".to_string()));
    assert_eq!(
        attachment_extension("application/x-signal-view-once"),
        Some("bin".to_string())
    );
}

#[test]
fn looked_up_extensions() {
    let expected = mime_guess::get_mime_extensions_str("video/mp4")
        .and_then(|l| l.first())
        .map(|e| e.to_string());
    assert!(expected.is_some());
    assert_eq!(attachment_extension("video/mp4"), expected);
    assert_eq!(attachment_extension("nonsense"), None);
    assert_eq!(attachment_extension("application/x-no-such-type-here"), None);
    assert_eq!(first_extension(Some(vec![])), None);
    assert_eq!(
        first_extension(Some(vec!["a".to_string(), "b".to_string()])),
        Some("a".to_string())
    );
}

#[test]
fn png_that_is_jpeg_is_renamed() {
    let jpeg = [0xffu8, 0xd8, 0xff, 0xe0, 0, 0x10, b'J', b'F', b'I', b'F', 0];
    let png = [0x89u8, b'P', b'N', b'G', 0x0d, 0x0a, 0x1a, 0x0a, 0, 0, 0];
    assert_eq!(checked_extension("png".to_string(), &jpeg), "jpg");
    assert_eq!(checked_extension("png".to_string(), &png), "png");
    assert_eq!(checked_extension("gif".to_string(), &jpeg), "gif");
    assert_eq!(corrected_extension("png".to_string(), "image/jpeg"), "jpg");
    assert_eq!(corrected_extension("txt".to_string(), "image/jpeg"), "txt");
}

#[test]
fn padding_is_cut() {
    let mut data = vec![1u8, 2, 3, 4, 5];
    strip_padding(&mut data, 10, 3);
    assert_eq!(data, vec![1, 2, 3]);
    let mut data = vec![1u8, 2, 3];
    strip_padding(&mut data, 3, 3);
    assert_eq!(data, vec![1, 2, 3]);
    let mut data = vec![1u8, 2];
    strip_padding(&mut data, 10, 5);
    assert_eq!(data, vec![1, 2]);
}
