//! The file of a downloaded attachment: the extension it is saved with,
//! and the padding that is cut off after decryption.
//!
//! A few content types have a fixed extension; any other gets the first
//! extension that the MIME database lists for it.  A `.png` attachment
//! whose content sniffs as a JPEG image is saved as `.jpg`, because some
//! clients send JPEG images under the PNG type.

use mime_classifier::{ApacheBugFlag, LoadContext, MimeClassifier, NoSniffFlag};
use vstd::prelude::*;
use vstd::string::*;

verus! {

/// The extensions that the MIME database (`mime_guess`) lists for a
/// content type, most common first; `None` for an unknown type.
pub uninterp spec fn mime_type_extensions(content_type: Seq<char>) -> Option<Seq<Seq<char>>>;

/// The MIME type (its essence, `type/subtype`) that the MIME sniffing
/// algorithm finds for `data` loaded as an image, without a type supplied
/// by the server.
pub uninterp spec fn sniffed_image_type(data: Seq<u8>) -> Seq<char>;

/// The MIME type (its essence) that `mime_guess` gives a file by the
/// extension of its path: the first it knows, or
/// `application/octet-stream`.
pub uninterp spec fn mime_type_of_path(path: Seq<char>) -> Seq<char>;

/// `mime_guess::from_path(..).first_or_octet_stream()`: the essence of the
/// guessed type, named by `mime_type_of_path`.
#[verifier::external_body]
pub(crate) fn guess_mime_type(path: &str) -> (res: String)
    ensures
        res@ == mime_type_of_path(path@),
{
    mime_guess::from_path(path).first_or_octet_stream().essence_str().to_string()
}

/// The views of a list of texts.
pub open spec fn texts_view(v: Seq<String>) -> Seq<Seq<char>> {
    v.map_values(|s: String| s@)
}

/// `mime_guess::get_mime_extensions_str`: the listed extensions of a
/// content type, named by `mime_type_extensions`.
#[verifier::external_body]
fn mime_extensions(content_type: &str) -> (res: Option<Vec<String>>)
    ensures
        res is None ==> mime_type_extensions(content_type@) is None,
        res is Some ==> mime_type_extensions(content_type@) == Some(texts_view(res->Some_0@)),
{
    mime_guess::get_mime_extensions_str(content_type).map(
        |exts| exts.iter().map(|e| e.to_string()).collect(),
    )
}

/// `MimeClassifier::classify` in the image context, without a supplied
/// type: the essence of the sniffed type, named by `sniffed_image_type`.
#[verifier::external_body]
fn sniff_image_type(data: &[u8]) -> (res: String)
    ensures
        res@ == sniffed_image_type(data@),
{
    let classifier = MimeClassifier::new();
    classifier.classify(LoadContext::Image, NoSniffFlag::Off, ApacheBugFlag::Off, &None, data)
        .essence_str()
        .to_string()
}

/// The fixed extension of a content type, if it has one.
pub open spec fn fixed_extension(content_type: Seq<char>) -> Option<Seq<char>> {
    if content_type == "text/plain"@ {
        Some("txt"@)
    } else if content_type == "image/jpeg"@ {
        Some("jpg"@)
    } else if content_type == "image/png"@ {
        Some("png"@)
    } else if content_type == "image/jpg"@ {
        Some("jpg"@)
    } else if content_type == "text/x-signal-plain"@ {
        Some("txt"@)
    } else if content_type == "application/x-signal-view-once"@ {
        Some("bin"@)
    } else {
        None
    }
}

/// The first of a list of extensions, if the list is there and not empty.
pub open spec fn first_of(list: Option<Seq<Seq<char>>>) -> Option<Seq<char>> {
    match list {
        Some(l) => if l.len() > 0 {
            Some(l[0])
        } else {
            None
        },
        None => None,
    }
}

/// The extension of an attachment of a content type: its fixed extension,
/// or else the first one the MIME database lists.  `None` when there is
/// neither (no extension can be chosen).
pub open spec fn attachment_extension_of(content_type: Seq<char>) -> Option<Seq<char>> {
    match fixed_extension(content_type) {
        Some(e) => Some(e),
        None => first_of(mime_type_extensions(content_type)),
    }
}

/// The extension a `.png` file is saved with, given what its content
/// sniffs as: `jpg` for a JPEG image, else unchanged.
pub open spec fn corrected_extension_of(ext: Seq<char>, sniffed: Seq<char>) -> Seq<char> {
    if ext == "png"@ && sniffed == "image/jpeg"@ {
        "jpg"@
    } else {
        ext
    }
}

/// Whether `s` is the text `lit`.
fn text_is(s: &str, lit: &str) -> (res: bool)
    ensures
        res == (s@ == lit@),
{
    s.to_owned() == lit.to_owned()
}

/// The fixed extension of a content type.
pub fn fixed_attachment_extension(content_type: &str) -> (res: Option<String>)
    ensures
        res is None ==> fixed_extension(content_type@) is None,
        res is Some ==> fixed_extension(content_type@) == Some(res->Some_0@),
{
    if text_is(content_type, "text/plain") {
        Some(String::from_str("txt"))
    } else if text_is(content_type, "image/jpeg") {
        Some(String::from_str("jpg"))
    } else if text_is(content_type, "image/png") {
        Some(String::from_str("png"))
    } else if text_is(content_type, "image/jpg") {
        Some(String::from_str("jpg"))
    } else if text_is(content_type, "text/x-signal-plain") {
        Some(String::from_str("txt"))
    } else if text_is(content_type, "application/x-signal-view-once") {
        Some(String::from_str("bin"))
    } else {
        None
    }
}

/// The first of the listed extensions.
pub fn first_extension(list: Option<Vec<String>>) -> (res: Option<String>)
    ensures
        res is None ==> first_of(
            match list {
                Some(v) => Some(texts_view(v@)),
                None => None,
            },
        ) is None,
        res is Some ==> first_of(
            match list {
                Some(v) => Some(texts_view(v@)),
                None => None,
            },
        ) == Some(res->Some_0@),
{
    match list {
        Some(v) => {
            if v.len() > 0 {
                Some(v[0].clone())
            } else {
                None
            }
        },
        None => None,
    }
}

/// The extension to save an attachment of the content type with, or
/// `None` when none is known for it.
pub fn attachment_extension(content_type: &str) -> (res: Option<String>)
    ensures
        res is None ==> attachment_extension_of(content_type@) is None,
        res is Some ==> attachment_extension_of(content_type@) == Some(res->Some_0@),
{
    match fixed_attachment_extension(content_type) {
        Some(e) => Some(e),
        None => first_extension(mime_extensions(content_type)),
    }
}

/// The extension given what the content sniffs as.
pub fn corrected_extension(ext: String, sniffed: &str) -> (res: String)
    ensures
        res@ == corrected_extension_of(ext@, sniffed@),
{
    if text_is(ext.as_str(), "png") && text_is(sniffed, "image/jpeg") {
        String::from_str("jpg")
    } else {
        ext
    }
}

/// The extension to save the decrypted attachment `data` with: a `.png`
/// attachment whose content sniffs as JPEG gets `jpg`.
pub fn checked_extension(ext: String, data: &[u8]) -> (res: String)
    ensures
        ext@ == "png"@ ==> res@ == corrected_extension_of(ext@, sniffed_image_type(data@)),
        ext@ != "png"@ ==> res@ == ext@,
{
    if text_is(ext.as_str(), "png") {
        let sniffed = sniff_image_type(data);
        corrected_extension(ext, sniffed.as_str())
    } else {
        ext
    }
}

/// Cuts the padding off a decrypted attachment: when more bytes were
/// downloaded (`stream_len`) than the attachment has (`actual_len`), the
/// data is truncated to `actual_len` bytes.
pub fn strip_padding(data: &mut Vec<u8>, stream_len: u32, actual_len: u32)
    ensures
        stream_len > actual_len && actual_len <= old(data)@.len() ==> final(data)@ == old(
            data,
        )@.take(actual_len as int),
        !(stream_len > actual_len && actual_len <= old(data)@.len()) ==> final(data)@ == old(
            data,
        )@,
{
    if stream_len > actual_len {
        data.truncate(actual_len as usize);
    }
}

} // verus!
