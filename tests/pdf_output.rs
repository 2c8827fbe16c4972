use extract_text::pdf::{
    image_file_suffix, line_last_word, listed_image_count, page_image_prefix, page_text_name,
    parse_u32, pdf_page_count, PageCountError,
};

#[test]
fn page_count_is_read_from_the_pages_line() {
    assert_eq!(pdf_page_count("Title:  x\nPages:          12\nEncrypted: no\n"), Ok(12));
    assert_eq!(pdf_page_count("Pages: 3\r\n"), Ok(3));
    assert_eq!(pdf_page_count("Pages: 2\nPages: 5"), Ok(5));
}

#[test]
fn missing_or_bad_page_counts_are_errors() {
    assert_eq!(pdf_page_count("Title: x\n"), Err(PageCountError::NoPages));
    assert_eq!(pdf_page_count("Pages: 0\n"), Err(PageCountError::NoPages));
    assert_eq!(pdf_page_count("Pages: many\n"), Err(PageCountError::Unreadable));
    assert_eq!(pdf_page_count("Pages:\n"), Err(PageCountError::Unreadable));
    assert_eq!(pdf_page_count("Pages: x\nPages: 5\n"), Err(PageCountError::Unreadable));
}

#[test]
fn numbers_parse_as_u32_does() {
    assert_eq!(parse_u32("42"), Some(42));
    assert_eq!(parse_u32("+42"), Some(42));
    assert_eq!(parse_u32("4294967295"), Some(u32::MAX));
    assert_eq!(parse_u32("4294967296"), None);
    assert_eq!(parse_u32(""), None);
    assert_eq!(parse_u32("+"), None);
    assert_eq!(parse_u32("-1"), None);
    assert_eq!(parse_u32("12a"), None);
}

#[test]
fn last_word_skips_trailing_white_space() {
    assert_eq!(line_last_word("Pages:   7  \r"), "7");
    assert_eq!(line_last_word("   "), "");
}

#[test]
fn image_listing_has_two_heading_lines() {
    assert_eq!(listed_image_count("page num type\n-----\n1 0 image\n2 1 image\n"), 2);
    assert_eq!(listed_image_count("page num type\n-----\n1 0 image"), 1);
    assert_eq!(listed_image_count("page num type\n-----\n"), 0);
    assert_eq!(listed_image_count(""), 0);
}

#[test]
fn output_file_names() {
    assert_eq!(page_text_name(12), "page 12");
    assert_eq!(page_image_prefix(3), "page 3 image");
    assert_eq!(image_file_suffix(0), "-000.ppm");
    assert_eq!(image_file_suffix(7), "-007.ppm");
    assert_eq!(image_file_suffix(42), "-042.ppm");
    assert_eq!(image_file_suffix(1234), "-1234.ppm");
}
