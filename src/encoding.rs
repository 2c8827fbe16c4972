//! Choice of a text encoding for a leaf file, and decoding of its bytes.
use vstd::prelude::*;
use vstd::utf8::valid_utf8;
use crate::text::{clean_decoded_text, cleaned_text};
use std::io::Read;

verus! {

/// The encodings that leaf text files are decoded from.
#[derive(Clone, Copy, Debug, PartialEq, Eq, Structural)]
pub enum TextEncoding {
    Utf8,
    Utf16Be,
    Utf16Le,
    Windows1252,
}

/// The text that the streaming decoder makes of `bytes` read as `encoding`:
/// malformed sequences are replaced, and a byte-order mark of that same
/// encoding is dropped.
pub uninterp spec fn decoded_with(bytes: Seq<u8>, encoding: TextEncoding) -> Seq<char>;

/// The encoding chosen for a file with the given contents (`None`: the file
/// does not exist): its byte-order mark if it starts with one; otherwise
/// UTF-8 when `assume_utf8` is set or when its bytes are valid UTF-8, and
/// Windows-1252 if not.
pub open spec fn encoding_for(content: Option<Seq<u8>>, assume_utf8: bool) -> TextEncoding {
    match content {
        None => TextEncoding::Utf8,
        Some(b) => if b.len() >= 3 && b[0] == 0xEF && b[1] == 0xBB && b[2] == 0xBF {
            TextEncoding::Utf8
        } else if b.len() >= 2 && b[0] == 0xFE && b[1] == 0xFF {
            TextEncoding::Utf16Be
        } else if b.len() >= 2 && b[0] == 0xFF && b[1] == 0xFE {
            TextEncoding::Utf16Le
        } else if assume_utf8 || valid_utf8(b) {
            TextEncoding::Utf8
        } else {
            TextEncoding::Windows1252
        },
    }
}

/// Relies on `std::str::from_utf8`: it fails exactly on bytes that are not
/// valid UTF-8.
#[verifier::external_body]
fn is_valid_utf8(bytes: &[u8]) -> (r: bool)
    ensures
        r == valid_utf8(bytes@),
{
    std::str::from_utf8(bytes).is_ok()
}

/// Detects the encoding of a file from its contents: a byte-order mark first,
/// then `assume_utf8`, then whether the whole file reads as UTF-8.
pub fn detect_encoding(content: Option<&[u8]>, assume_utf8: bool) -> (r: TextEncoding)
    ensures
        r == encoding_for(
            match content {
                Some(b) => Some(b@),
                None => None,
            },
            assume_utf8,
        ),
{
    match content {
        None => TextEncoding::Utf8,
        Some(b) => {
            if b.len() >= 3 && b[0] == 0xEF && b[1] == 0xBB && b[2] == 0xBF {
                return TextEncoding::Utf8;
            }
            if b.len() >= 2 {
                if b[0] == 0xFE && b[1] == 0xFF {
                    return TextEncoding::Utf16Be;
                }
                if b[0] == 0xFF && b[1] == 0xFE {
                    return TextEncoding::Utf16Le;
                }
            }
            if assume_utf8 || is_valid_utf8(b) {
                TextEncoding::Utf8
            } else {
                TextEncoding::Windows1252
            }
        },
    }
}

/// Relies on `encoding_rs_io::DecodeReaderBytesBuilder::encoding` and
/// `Read::read_to_string`: with an explicit encoding the bytes are decoded
/// unconditionally, malformed sequences replaced, and reading from memory
/// cannot fail.
#[verifier::external_body]
pub(crate) fn read_file_with_encoding(bytes: &[u8], encoding: TextEncoding) -> (r: String)
    ensures
        r@ == decoded_with(bytes@, encoding),
{
    let enc = match encoding {
        TextEncoding::Utf8 => encoding_rs::UTF_8,
        TextEncoding::Utf16Be => encoding_rs::UTF_16BE,
        TextEncoding::Utf16Le => encoding_rs::UTF_16LE,
        TextEncoding::Windows1252 => encoding_rs::WINDOWS_1252,
    };
    let mut decoder = encoding_rs_io::DecodeReaderBytesBuilder::new().encoding(Some(enc)).build(bytes);
    let mut contents = String::new();
    match decoder.read_to_string(&mut contents) {
        Ok(_) => contents,
        Err(_) => String::new(),
    }
}

/// The text of a plain-text leaf: its bytes decoded with the encoding
/// detected for them, then cleaned up.
pub open spec fn plain_text_of(content: Seq<u8>) -> Seq<char> {
    cleaned_text(decoded_with(content, encoding_for(Some(content), false)))
}

/// The text of a plain-text leaf: decoded with the detected encoding, then
/// cleaned up.
pub fn read_text_from_file(content: &[u8]) -> (r: String)
    ensures
        r@ == plain_text_of(content@),
{
    let encoding = detect_encoding(Some(content), false);
    let decoded = read_file_with_encoding(content, encoding);
    clean_decoded_text(decoded.as_str())
}

} // verus!
