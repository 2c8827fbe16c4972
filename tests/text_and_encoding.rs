use extract_text::classify::{extension, get_effective_file_extension, sniff_extension};
use extract_text::encoding::{detect_encoding, read_text_from_file, TextEncoding};
use extract_text::text::{clean_decoded_text, convert_accented_manual, keep_printable, sanitize_file_name};

#[test]
fn accented_letters_fold_to_base_letters() {
    assert_eq!(convert_accented_manual("áàãâ éèê íìîï óòõô úùũû ñ"), "aaaa eee iiii oooo uuuu n");
    assert_eq!(convert_accented_manual("Ünïcode ç"), "Ünicode ç");
}

#[test]
fn only_printable_ascii_and_white_space_are_kept() {
    assert_eq!(keep_printable("a\u{1}b\tc\u{3000}d\u{e9}"), "ab\tc\u{3000}d");
}

#[test]
fn text_with_a_nul_is_not_folded() {
    assert_eq!(clean_decoded_text("caf\u{e9}\u{0}"), "caf");
    assert_eq!(clean_decoded_text("caf\u{e9}"), "cafe");
}

#[test]
fn illegal_file_name_characters_are_dropped() {
    assert_eq!(sanitize_file_name("a/b?c<d>e\\f:g*h|i\"j"), "abcdefghij");
}

#[test]
fn byte_order_marks_decide_the_encoding() {
    assert_eq!(detect_encoding(Some(&[0xEF, 0xBB, 0xBF, b'a']), false), TextEncoding::Utf8);
    assert_eq!(detect_encoding(Some(&[0xFE, 0xFF, 0, b'a']), false), TextEncoding::Utf16Be);
    assert_eq!(detect_encoding(Some(&[0xFF, 0xFE, b'a', 0]), false), TextEncoding::Utf16Le);
    assert_eq!(detect_encoding(None, false), TextEncoding::Utf8);
}

#[test]
fn short_files_are_checked_for_a_byte_order_mark() {
    assert_eq!(detect_encoding(Some(&[0xFE, 0xFF, b'a']), false), TextEncoding::Utf16Be);
    assert_eq!(detect_encoding(Some(&[0xFE, 0xFF, b'a']), true), TextEncoding::Utf16Be);
    assert_eq!(detect_encoding(Some(&[0xFF, 0xFE]), false), TextEncoding::Utf16Le);
    assert_eq!(detect_encoding(Some(&[0xEF, 0xBB, 0xBF]), false), TextEncoding::Utf8);
    assert_eq!(detect_encoding(Some(&[0xFE]), false), TextEncoding::Windows1252);
    assert_eq!(detect_encoding(Some(&[0xFE]), true), TextEncoding::Utf8);
}

#[test]
fn invalid_utf8_falls_back_to_windows_1252() {
    assert_eq!(detect_encoding(Some(b"caf\xe9 au lait"), false), TextEncoding::Windows1252);
    assert_eq!(detect_encoding(Some(b"caf\xe9 au lait"), true), TextEncoding::Utf8);
    assert_eq!(detect_encoding(Some("café au lait".as_bytes()), false), TextEncoding::Utf8);
}

#[test]
fn plain_utf8_file_decodes_byte_for_byte() {
    let fixture = "The quick brown fox\njumps over the lazy dog.\r\n\tEnd of file 123 !@#\n";
    assert_eq!(read_text_from_file(fixture.as_bytes()), fixture);
}

#[test]
fn windows_1252_text_is_decoded_and_folded() {
    assert_eq!(read_text_from_file(b"caf\xe9 na\xefve"), "cafe naive");
    assert_eq!(read_text_from_file(&[0x63, 0x61, 0x66, 0xE9]), "cafe");
}

#[test]
fn utf16_text_is_decoded() {
    let bytes = [0xFF, 0xFE, b'h', 0, b'i', 0, b'!', 0];
    assert_eq!(read_text_from_file(&bytes), "hi!");
}

#[test]
fn extension_follows_the_last_dot() {
    assert_eq!(extension("archive.tar.gz"), "gz");
    assert_eq!(extension(".bashrc"), "");
    assert_eq!(extension("README"), "");
    assert_eq!(extension("name."), "");
}

#[test]
fn supported_extensions_are_taken_lower_cased() {
    assert_eq!(get_effective_file_extension("Report.DOCX", 100, None), "docx");
    assert_eq!(get_effective_file_extension("x.Pdf", 3, Some(b"PK\x03\x04\x00\x00")), "pdf");
}

#[test]
fn unknown_extensions_are_sniffed() {
    assert_eq!(get_effective_file_extension("blob.bin", 100, Some(b"PK\x03\x04\x14\x00")), "zip");
    assert_eq!(get_effective_file_extension("blob", 100, Some(b"%PDF-1")), "pdf");
    assert_eq!(get_effective_file_extension("blob", 100, Some(&[0x37, 0x7A, 0xBC, 0xAF, 0x27, 0x1C])), "7z");
    assert_eq!(get_effective_file_extension("blob", 100, Some(&[0x1F, 0x8B, 8, 0, 0, 0])), "gzip");
    assert_eq!(get_effective_file_extension("blob.dat", 100, Some(&[0xFF, 0xFE, 0, 0, 0, 0])), "txt");
    assert_eq!(get_effective_file_extension("blob.dat", 100, Some(b"abcdef")), "dat");
    assert_eq!(get_effective_file_extension("blob.dat", 100, None), "dat");
}

#[test]
fn short_files_are_dispatched_by_extension_only() {
    assert_eq!(get_effective_file_extension("blob.bin", 15, Some(b"PK\x03\x04\x14\x00")), "bin");
    assert_eq!(get_effective_file_extension("empty_file", 0, None), "");
}

#[test]
fn zip_signature_wins_over_narrower_ones() {
    assert_eq!(sniff_extension(b"PK\x03\x04"), Some("zip".to_string()));
    assert_eq!(sniff_extension(b"PK\x03"), None);
    assert_eq!(sniff_extension(&[0xEF, 0xBB, 0xBF]), Some("txt".to_string()));
}
