use std::io::{Cursor, Write};

use extract_text::containers::{
    embedded_images, is_embedded_image, mail_parts, module_file_name, row_line, sheet_text, workbook_files, ArchiveEntry,
    MacroModule, Sheet,
};
use extract_text::documents::{extract_text_from_subfile, Docx, MsDoc, Odt, OpenOfficeDoc, SubfileText};
use extract_text::engine::{ChildFile, Decomposer, Format, SubFileItem};
use extract_text::msg::{message_body_text, placeholder_name, walk_compound, walk_message, MsgError, PartData};

fn zip_with(name: &str, content: &str) -> Vec<u8> {
    let mut w = zip::ZipWriter::new(Cursor::new(Vec::new()));
    w.start_file(name, zip::write::SimpleFileOptions::default()).unwrap();
    w.write_all(content.as_bytes()).unwrap();
    w.finish().unwrap().into_inner()
}

const DOCUMENT_XML: &str = "<w:document><w:body><w:p><w:r><w:t>Hello</w:t></w:r><w:r><w:t xml:space=\"preserve\"> world</w:t></w:r></w:p><w:p><w:r><w:t>Second</w:t></w:r></w:p></w:body></w:document>";

fn item(name: &str, extractable: bool) -> SubFileItem {
    SubFileItem { filepath: format!("/t/{}", name), name: name.to_string(), depth: 0, parent_files: vec![], ok_to_extract_text: extractable }
}

#[test]
fn word_document_text_runs_are_read() {
    let bytes = zip_with("word/document.xml", DOCUMENT_XML);
    let doc = <Docx as MsDoc>::open(&bytes).unwrap();
    assert_eq!(doc.text(), "\n\nHello world\n\nSecond");
}

#[test]
fn open_document_paragraphs_and_spans_are_read() {
    let bytes = zip_with("content.xml", "<office:text><text:p>One<text:span>Two</text:span></text:p></office:text>");
    let doc = <Odt as OpenOfficeDoc>::open(&bytes).unwrap();
    assert_eq!(doc.text(), "\n\nOneTwo");
}

#[test]
fn unreadable_documents_give_no_document() {
    assert!(Docx::from_bytes(b"not a zip").is_none());
    assert!(Docx::from_bytes(&zip_with("word/document.xml", "<w:p><w:t>x</w:p")).is_none());
}

#[test]
fn documents_without_their_part_have_empty_text() {
    assert_eq!(Odt::from_bytes(&zip_with("other.xml", "<a/>")).unwrap().text(), "");
    assert_eq!(<Docx as MsDoc>::open(&zip_with("other.xml", "<a/>")).unwrap().text(), "");
}

#[test]
fn two_paragraph_document_reads_as_blank_line_separated_text() {
    let xml = "<w:document><w:body><w:p><w:r><w:t>Hello</w:t></w:r></w:p><w:p><w:r><w:t>World</w:t></w:r></w:p></w:body></w:document>";
    let doc = <Docx as MsDoc>::open(&zip_with("word/document.xml", xml)).unwrap();
    assert_eq!(doc.text(), "\n\nHello\n\nWorld");
}

#[test]
fn subfile_text_goes_by_extension() {
    let docx = zip_with("word/document.xml", DOCUMENT_XML);
    match extract_text_from_subfile(&item("Report.DOCX", true), &docx) {
        SubfileText::Text(t) => assert_eq!(t, "\n\nHello world\n\nSecond"),
        other => panic!("unexpected {:?}", other),
    }
    match extract_text_from_subfile(&item("broken.docx", true), b"junk") {
        SubfileText::Text(t) => assert_eq!(t, ""),
        other => panic!("unexpected {:?}", other),
    }
    assert!(matches!(extract_text_from_subfile(&item("scan.PNG", true), b"\x89PNG"), SubfileText::NeedsOcr));
    match extract_text_from_subfile(&item("archive.zip", false), b"PK") {
        SubfileText::Text(t) => assert_eq!(t, ""),
        other => panic!("unexpected {:?}", other),
    }
    match extract_text_from_subfile(&item("notes", true), "na\u{ef}ve\u{1}".as_bytes()) {
        SubfileText::Text(t) => assert_eq!(t, "naive"),
        other => panic!("unexpected {:?}", other),
    }
}

#[test]
fn embedded_images_are_recognised() {
    assert!(is_embedded_image("word/media/image1.png", "image1.png", "word/media/"));
    assert!(is_embedded_image("Pictures/p.jpeg", "p.jpeg", "Pictures/"));
    assert!(!is_embedded_image("word/media/chart.gif", "chart.gif", "word/media/"));
    assert!(!is_embedded_image("word/mediax/a.png", "a.png", "word/media/"));
    assert!(!is_embedded_image("Pictures/p.JPG", "p.JPG", "Pictures/"));
}

#[test]
fn worksheets_flatten_to_tab_separated_lines() {
    let rows = vec![
        vec!["a".to_string(), "b".to_string()],
        vec![String::new(), String::new()],
        vec![" ".to_string(), "\t".to_string()],
        vec!["c".to_string()],
    ];
    assert_eq!(row_line(&rows[0]), "a\tb");
    assert_eq!(sheet_text(&rows), "a\tb\nc\n");
    assert_eq!(sheet_text(&vec![]), "");
    assert_eq!(module_file_name("Mod:1"), "VBA_Mod1");
}

#[test]
fn mail_message_becomes_body_and_attachments() {
    let raw = "From: a@example.com\r\nSubject: Hello\r\nMIME-Version: 1.0\r\nContent-Type: multipart/mixed; boundary=\"XX\"\r\n\r\n--XX\r\nContent-Type: text/plain\r\n\r\nBody text\r\n--XX\r\nContent-Type: text/plain\r\nContent-Disposition: attachment; filename=\"a.txt\"\r\n\r\nhello\r\n--XX--\r\n";
    let parts = mail_parts(raw.as_bytes()).unwrap();
    assert_eq!(parts.len(), 2);
    assert_eq!(parts[0].name, "body.txt");
    match &parts[0].data {
        PartData::Text(t) => {
            assert!(t.starts_with("HelloBody text"));
        }
        other => panic!("unexpected {:?}", other),
    }
    assert_eq!(parts[1].name, "a.txt");
    match &parts[1].data {
        PartData::Bytes(b) => assert_eq!(b.as_slice(), b"hello"),
        other => panic!("unexpected {:?}", other),
    }
}

fn utf16(s: &str) -> Vec<u8> {
    s.encode_utf16().flat_map(|u| u.to_le_bytes()).collect()
}

fn put(cf: &mut cfb::CompoundFile<Cursor<Vec<u8>>>, path: &str, data: &[u8]) {
    let mut s = cf.create_stream(path).unwrap();
    s.write_all(data).unwrap();
}

fn message_with_nested_message() -> Vec<u8> {
    let mut cf = cfb::CompoundFile::create(Cursor::new(Vec::new())).unwrap();
    put(&mut cf, "/__substg1.0_0037001F", &utf16("Top subject"));
    put(&mut cf, "/__substg1.0_1000001F", &utf16("Top body"));
    cf.create_storage("/__attach_version1.0_#00000000").unwrap();
    put(&mut cf, "/__attach_version1.0_#00000000/__substg1.0_3707001F", &utf16("notes.txt"));
    put(&mut cf, "/__attach_version1.0_#00000000/__substg1.0_37010102", b"attached notes");
    cf.create_storage("/__attach_version1.0_#00000001").unwrap();
    put(&mut cf, "/__attach_version1.0_#00000001/__substg1.0_3001001F", &utf16("Inner: mail?"));
    cf.create_storage("/__attach_version1.0_#00000001/__substg1.0_3701000D").unwrap();
    put(&mut cf, "/__attach_version1.0_#00000001/__substg1.0_3701000D/__substg1.0_0037001F", &utf16("Inner subject"));
    put(&mut cf, "/__attach_version1.0_#00000001/__substg1.0_3701000D/__substg1.0_1000001F", &utf16("Inner body"));
    cf.flush().unwrap();
    cf.into_inner().into_inner()
}

#[test]
fn legacy_message_with_nested_message_yields_five_leaves() {
    let parts = walk_message(message_with_nested_message()).unwrap().unwrap();
    let summary: Vec<(&str, Option<usize>, bool)> = parts.iter().map(|p| (p.name.as_str(), p.parent, p.expand)).collect();
    assert_eq!(
        summary,
        vec![("body.txt", None, true), ("notes.txt", None, true), ("Inner mail.msg", None, false), ("body.txt", Some(2), true)]
    );
    match &parts[0].data {
        PartData::Text(t) => assert_eq!(t, "Top subject\n\nTop body"),
        other => panic!("unexpected {:?}", other),
    }
    match &parts[3].data {
        PartData::Text(t) => assert_eq!(t, "Inner subject\n\nInner body"),
        other => panic!("unexpected {:?}", other),
    }

    let mut d = Decomposer::new("/in/top.msg".to_string(), "top.msg".to_string());
    d.next_node().unwrap();
    let children: Vec<ChildFile> = parts
        .iter()
        .enumerate()
        .map(|(i, p)| ChildFile { path: format!("/t/{}/{}", i, p.name), name: p.name.clone(), parent: p.parent, expand: p.expand })
        .collect();
    d.expand(Format::CompoundMessage, children).unwrap();
    while d.next_node().is_some() {
        d.expand(Format::Plain, vec![]).unwrap();
    }
    let leaves = d.into_leaves();
    let got: Vec<(&str, usize, Vec<String>, bool)> = leaves
        .iter()
        .map(|l| (l.name.as_str(), l.depth, l.parent_files.clone(), l.ok_to_extract_text))
        .collect();
    let top = vec!["top.msg".to_string()];
    let nested = vec!["top.msg".to_string(), "Inner mail.msg".to_string()];
    assert_eq!(
        got,
        vec![
            ("top.msg", 0, vec![], false),
            ("body.txt", 1, top.clone(), true),
            ("notes.txt", 1, top.clone(), true),
            ("Inner mail.msg", 1, top.clone(), false),
            ("body.txt", 2, nested, true),
        ]
    );
}

#[test]
fn message_without_subject_is_an_error() {
    let mut cf = cfb::CompoundFile::create(Cursor::new(Vec::new())).unwrap();
    put(&mut cf, "/__substg1.0_1000001F", &utf16("Body"));
    cf.flush().unwrap();
    let bytes = cf.into_inner().into_inner();
    assert!(matches!(walk_message(bytes), Err(MsgError::MissingSubject)));
}

#[test]
fn unknown_attachment_shape_is_an_error() {
    let mut cf = cfb::CompoundFile::create(Cursor::new(Vec::new())).unwrap();
    put(&mut cf, "/__substg1.0_0037001F", &utf16("S"));
    put(&mut cf, "/__substg1.0_1000001F", &utf16("B"));
    cf.create_storage("/__attach_version1.0_#00000000").unwrap();
    cf.flush().unwrap();
    let bytes = cf.into_inner().into_inner();
    assert!(matches!(walk_message(bytes), Err(MsgError::UnknownAttachment)));
}

#[test]
fn bytes_that_are_no_compound_file_have_no_parts() {
    assert!(matches!(walk_message(b"plain text".to_vec()), Ok(None)));
}

#[test]
fn message_names_and_body_text() {
    assert_eq!(placeholder_name("Re: what?"), "Re what.msg");
    assert_eq!(message_body_text("S", "B"), "S\n\nB");
}

#[test]
fn the_work_list_budget_bounds_the_walk() {
    let bytes = message_with_nested_message();
    let mut cf = cfb::CompoundFile::open(Cursor::new(bytes.clone())).unwrap();
    assert!(matches!(walk_compound(&mut cf, 0), Err(MsgError::TooDeep)));
    let mut cf = cfb::CompoundFile::open(Cursor::new(bytes)).unwrap();
    assert_eq!(walk_compound(&mut cf, 1).unwrap().len(), 4);
}

fn entry(path: &str, name: &str) -> ArchiveEntry {
    ArchiveEntry { path: path.to_string(), file_name: name.to_string() }
}

#[test]
fn embedded_pictures_are_chosen_in_archive_order() {
    let entries = vec![
        entry("word/document.xml", "document.xml"),
        entry("word/media/b.png", "b.png"),
        entry("word/media/chart.gif", "chart.gif"),
        entry("word/media/a.jpeg", "a.jpeg"),
        entry("", ""),
    ];
    assert_eq!(embedded_images(&entries, "word/media/"), vec![1, 3]);
    assert_eq!(embedded_images(&entries, "Pictures/"), Vec::<usize>::new());
}

#[test]
fn workbook_expands_into_modules_then_worksheets() {
    let modules = vec![MacroModule { name: "Module/1".to_string(), code: "Sub A()".to_string() }];
    let sheets = vec![
        Sheet { name: "Data".to_string(), is_worksheet: true, rows: vec![vec!["a".to_string(), "b".to_string()]] },
        Sheet { name: "Chart".to_string(), is_worksheet: false, rows: vec![vec!["x".to_string()]] },
        Sheet { name: "Blank".to_string(), is_worksheet: true, rows: vec![vec![" ".to_string()]] },
        Sheet { name: "Q:1".to_string(), is_worksheet: true, rows: vec![vec!["c".to_string()]] },
    ];
    let files: Vec<(String, String)> = workbook_files(&modules, &sheets).into_iter().map(|f| (f.name, f.text)).collect();
    assert_eq!(
        files,
        vec![
            ("VBA_Module1".to_string(), "Sub A()".to_string()),
            ("Data".to_string(), "a\tb\n".to_string()),
            ("Q1".to_string(), "c\n".to_string()),
        ]
    );
}

#[test]
fn unnamed_mail_attachments_get_stable_names() {
    let raw = "Subject: S\r\nMIME-Version: 1.0\r\nContent-Type: multipart/mixed; boundary=\"XX\"\r\n\r\n--XX\r\nContent-Type: text/plain\r\n\r\nB\r\n--XX\r\nContent-Type: application/octet-stream\r\nContent-Disposition: attachment\r\n\r\nzzz\r\n--XX--\r\n";
    let first = mail_parts(raw.as_bytes()).unwrap();
    let second = mail_parts(raw.as_bytes()).unwrap();
    assert_eq!(first.len(), 2);
    assert_eq!(first[1].name, "attachment_0");
    assert_eq!(second[1].name, first[1].name);
}
