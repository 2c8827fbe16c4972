use extract_text::engine::{ChildFile, Decomposer, Format, MisplacedParent, SubFileItem};
use extract_text::reconcile::{FileListItem, LeafAction, LeafOutcome, Reconciler};

fn file(path: &str, name: &str) -> ChildFile {
    ChildFile { path: path.to_string(), name: name.to_string(), parent: None, expand: true }
}

fn names(v: &[&str]) -> Vec<String> {
    v.iter().map(|s| s.to_string()).collect()
}

/// Every leaf's depth is its lineage's length, and each lineage is an
/// earlier leaf's lineage extended by that leaf's name.
fn check_lineage(leaves: &[SubFileItem]) {
    for (i, leaf) in leaves.iter().enumerate() {
        assert_eq!(leaf.depth, leaf.parent_files.len());
        if !leaf.parent_files.is_empty() {
            assert!(leaves[..i].iter().any(|p| {
                let mut l = p.parent_files.clone();
                l.push(p.name.clone());
                l == leaf.parent_files
            }));
        }
    }
}

#[test]
fn nested_zip_yields_three_leaves() {
    let mut d = Decomposer::new("/in/outer.zip".to_string(), "outer.zip".to_string());
    let node = d.next_node().unwrap();
    assert_eq!((node.name.as_str(), node.depth), ("outer.zip", 0));
    d.expand(Format::Zip, vec![file("/tmp/a/inner.zip", "inner.zip")]).unwrap();
    let node = d.next_node().unwrap();
    assert_eq!((node.name.as_str(), node.depth), ("inner.zip", 1));
    d.expand(Format::Zip, vec![file("/tmp/b/note.txt", "note.txt")]).unwrap();
    let node = d.next_node().unwrap();
    assert_eq!((node.path.as_str(), node.depth), ("/tmp/b/note.txt", 2));
    d.expand(Format::Plain, vec![]).unwrap();
    assert!(d.next_node().is_none());
    let leaves = d.into_leaves();
    assert_eq!(leaves.len(), 3);
    assert_eq!((leaves[0].name.as_str(), leaves[0].depth, leaves[0].ok_to_extract_text), ("outer.zip", 0, false));
    assert_eq!((leaves[1].name.as_str(), leaves[1].depth, leaves[1].ok_to_extract_text), ("inner.zip", 1, false));
    assert_eq!(leaves[1].parent_files, names(&["outer.zip"]));
    assert_eq!((leaves[2].name.as_str(), leaves[2].depth, leaves[2].ok_to_extract_text), ("note.txt", 2, true));
    assert_eq!(leaves[2].parent_files, names(&["outer.zip", "inner.zip"]));
    check_lineage(&leaves);
}

#[test]
fn siblings_keep_discovery_order_and_children_follow_their_parent() {
    let mut d = Decomposer::new("/in/top.zip".to_string(), "top.zip".to_string());
    d.next_node().unwrap();
    d.expand(Format::Zip, vec![file("/t/x.zip", "x.zip"), file("/t/y.txt", "y.txt")]).unwrap();
    assert_eq!(d.next_node().unwrap().name, "x.zip");
    d.expand(Format::Zip, vec![file("/u/z.txt", "z.txt")]).unwrap();
    assert_eq!(d.next_node().unwrap().name, "z.txt");
    d.expand(Format::Plain, vec![]).unwrap();
    assert_eq!(d.next_node().unwrap().name, "y.txt");
    d.expand(Format::Plain, vec![]).unwrap();
    assert!(d.is_done() || d.next_node().is_none());
    let leaves = d.into_leaves();
    let order: Vec<&str> = leaves.iter().map(|l| l.name.as_str()).collect();
    assert_eq!(order, vec!["top.zip", "x.zip", "z.txt", "y.txt"]);
    check_lineage(&leaves);
}

#[test]
fn word_documents_are_extracted_and_expanded() {
    let mut d = Decomposer::new("/in/a.docx".to_string(), "a.docx".to_string());
    d.next_node().unwrap();
    d.expand(Format::WordDocument, vec![file("/t/image1.png", "image1.png")]).unwrap();
    d.next_node().unwrap();
    d.expand(Format::Plain, vec![]).unwrap();
    let leaves = d.into_leaves();
    assert!(leaves[0].ok_to_extract_text);
    assert_eq!(leaves[1].parent_files, names(&["a.docx"]));
}

#[test]
fn a_child_may_not_sit_in_a_later_child() {
    let mut d = Decomposer::new("/in/m.msg".to_string(), "m.msg".to_string());
    d.next_node().unwrap();
    let bad = ChildFile { path: "/t/b.txt".to_string(), name: "b.txt".to_string(), parent: Some(0), expand: true };
    assert_eq!(d.expand(Format::CompoundMessage, vec![bad]), Err(MisplacedParent { child: 0 }));
    assert_eq!(d.next_node().unwrap().name, "m.msg");
}

fn leaf(name: &str, lineage: &[&str]) -> SubFileItem {
    SubFileItem {
        filepath: format!("/t/{}", name),
        name: name.to_string(),
        depth: lineage.len(),
        parent_files: names(lineage),
        ok_to_extract_text: true,
    }
}

#[test]
fn zero_byte_file_gives_one_empty_record() {
    let mut r = Reconciler::new(Vec::new());
    let l = leaf("empty_file", &[]);
    let a = r.assess(&l, &[]);
    assert_eq!((a.size, a.crc, a.action), (0, 0, LeafAction::Empty));
    r.record(&l, a.size, a.crc, None).unwrap();
    let records = r.into_records();
    assert_eq!(
        records,
        vec![FileListItem { filename: "empty_file".to_string(), parent_files: vec![], crc: 0, size: 0, text_contents: Some(String::new()) }]
    );
}

#[test]
fn fingerprint_is_crc64_nvme() {
    let r = Reconciler::new(Vec::new());
    let a = r.assess(&leaf("check.txt", &[]), b"123456789");
    assert_eq!(a.crc, 0xAE8B14860A799888);
    assert_eq!(a.size, 9);
    assert_eq!(a.action, LeafAction::Extract);
}

fn run(leaves: &[(SubFileItem, &[u8])], prior: Vec<FileListItem>, stop_after: usize) -> Vec<FileListItem> {
    let mut r = Reconciler::new(prior);
    for (l, content) in leaves.iter().take(stop_after) {
        let a = r.assess(l, content);
        let text = match a.action {
            LeafAction::Extract => Some(format!("text of {}", l.name)),
            _ => None,
        };
        r.record(l, a.size, a.crc, text).unwrap();
    }
    r.into_records()
}

fn sample() -> Vec<(SubFileItem, &'static [u8])> {
    vec![
        (leaf("outer.zip", &[]), b"PK-outer".as_slice()),
        (leaf("empty", &["outer.zip"]), b"".as_slice()),
        (leaf("a.txt", &["outer.zip"]), b"alpha".as_slice()),
        (leaf("a.txt", &["outer.zip", "inner.zip"]), b"beta".as_slice()),
    ]
}

#[test]
fn rescanning_unchanged_input_skips_every_non_empty_leaf() {
    let leaves = sample();
    let first = run(&leaves, Vec::new(), leaves.len());
    assert!(first.iter().all(|r| r.text_contents.is_some()));
    let second = run(&leaves, first.iter().map(|r| FileListItem {
        filename: r.filename.clone(),
        parent_files: r.parent_files.clone(),
        crc: r.crc,
        size: r.size,
        text_contents: r.text_contents.clone(),
    }).collect(), leaves.len());
    assert_eq!(second.len(), first.len());
    for (a, b) in first.iter().zip(second.iter()) {
        assert_eq!(a.crc, b.crc);
        if a.size != 0 {
            assert_eq!(b.text_contents, None);
        } else {
            assert_eq!(b.text_contents, Some(String::new()));
        }
    }
}

#[test]
fn a_changed_leaf_or_another_lineage_is_extracted_again() {
    let leaves = sample();
    let first = run(&leaves, Vec::new(), leaves.len());
    let mut changed = sample();
    changed[2].1 = b"alpha!";
    let second = run(&changed, first, changed.len());
    assert_eq!(second[2].text_contents, Some("text of a.txt".to_string()));
    assert_eq!(second[3].text_contents, None);
}

#[test]
fn a_stopped_scan_returns_exactly_the_records_made() {
    let leaves = sample();
    let full = run(&leaves, Vec::new(), leaves.len());
    for n in 0..=leaves.len() {
        let stopped = run(&leaves, Vec::new(), n);
        assert_eq!(stopped.len(), n);
        assert_eq!(stopped.as_slice(), &full[..n]);
    }
}

#[test]
fn an_extracted_leaf_needs_its_text() {
    let mut r = Reconciler::new(Vec::new());
    let l = leaf("a.txt", &[]);
    let a = r.assess(&l, b"abc");
    assert!(r.record(&l, a.size, a.crc, None).is_err());
    assert!(r.record(&l, a.size, a.crc, Some("abc".to_string())).is_ok());
    assert_eq!(r.into_records().len(), 1);
}

#[test]
fn a_plain_file_gets_no_children() {
    let mut d = Decomposer::new("/in/a.txt".to_string(), "a.txt".to_string());
    d.next_node().unwrap();
    d.expand(Format::Plain, vec![file("/t/x.txt", "x.txt")]).unwrap();
    assert!(d.next_node().is_none());
    let leaves = d.into_leaves();
    assert_eq!(leaves.len(), 1);
    assert!(leaves[0].ok_to_extract_text);
}

#[test]
fn recorded_leaves_carry_their_extracted_text() {
    let mut r = Reconciler::new(Vec::new());
    assert_eq!(r.record_leaf(&leaf("a.txt", &["z.zip"]), b"caf\xe9"), LeafOutcome::Recorded);
    let mut not_extractable = leaf("z.zip", &[]);
    not_extractable.ok_to_extract_text = false;
    assert_eq!(r.record_leaf(&not_extractable, b"PK"), LeafOutcome::Recorded);
    match r.record_leaf(&leaf("scan.png", &[]), b"\x89PNG") {
        LeafOutcome::NeedsOcr(a) => {
            assert_eq!((a.size, a.action), (4, LeafAction::Extract));
            r.record(&leaf("scan.png", &[]), a.size, a.crc, Some("ocr text".to_string())).unwrap();
        }
        other => panic!("unexpected {:?}", other),
    }
    let records = r.into_records();
    let texts: Vec<Option<String>> = records.into_iter().map(|x| x.text_contents).collect();
    assert_eq!(texts, vec![Some("cafe".to_string()), Some(String::new()), Some("ocr text".to_string())]);
}
