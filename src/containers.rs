//! What the expansion of each container format decides, apart from the
//! reading and writing of files: which embedded files are images, how a
//! worksheet is flattened to text, what a mail message is split into.
use vstd::prelude::*;
use vstd::string::StringExecFns;
use mail_parser::MimeHeaders;
use crate::classify::{extension, extension_of, text_eq};
use crate::msg::{parts_well_formed, MsgPart, PartData};
use crate::text::{file_name_safe, is_white_space, sanitize_file_name};
use crate::pdf::{decimal, decimal_of};

verus! {

/// Whether `s` begins with `prefix`.
pub open spec fn starts_with(s: Seq<char>, prefix: Seq<char>) -> bool {
    prefix.len() <= s.len() && s.take(prefix.len() as int) == prefix
}

/// An embedded picture of a word-processor container: an entry under the
/// container's picture folder whose file name has a `png`, `jpeg` or `jpg`
/// extension.
pub open spec fn is_embedded_image_entry(entry_path: Seq<char>, file_name: Seq<char>, folder: Seq<char>) -> bool {
    let e = extension_of(file_name);
    starts_with(entry_path, folder) && (e == "png"@ || e == "jpeg"@ || e == "jpg"@)
}

pub(crate) fn has_prefix_chars(s: &str, prefix: &str) -> (r: bool)
    ensures
        r == starts_with(s@, prefix@),
{
    let n = prefix.unicode_len();
    if n > s.unicode_len() {
        return false;
    }
    let head = s.substring_char(0, n);
    text_eq(head, prefix)
}

/// Whether a zip entry is an embedded picture to be read by optical
/// character recognition (`folder` is `word/media/` for word-processor
/// documents and `Pictures/` for open documents).
pub fn is_embedded_image(entry_path: &str, file_name: &str, folder: &str) -> (r: bool)
    ensures
        r == is_embedded_image_entry(entry_path@, file_name@, folder@),
{
    if !has_prefix_chars(entry_path, folder) {
        return false;
    }
    let e = extension(file_name);
    text_eq(e.as_str(), "png") || text_eq(e.as_str(), "jpeg") || text_eq(e.as_str(), "jpg")
}

/// An entry of a zip container: its path inside the archive and its file
/// name.
pub struct ArchiveEntry {
    pub path: String,
    pub file_name: String,
}

/// The positions, in archive order, of the entries that are embedded
/// pictures under `folder`.
pub open spec fn image_positions(entries: Seq<ArchiveEntry>, folder: Seq<char>) -> Seq<usize>
    decreases entries.len(),
{
    if entries.len() == 0 {
        Seq::empty()
    } else if is_embedded_image_entry(entries.last().path@, entries.last().file_name@, folder) {
        image_positions(entries.drop_last(), folder).push((entries.len() - 1) as usize)
    } else {
        image_positions(entries.drop_last(), folder)
    }
}

/// Chooses, in archive order, the entries of a word-processor container that
/// expand into children: its embedded pictures under `folder`.
pub fn embedded_images(entries: &Vec<ArchiveEntry>, folder: &str) -> (r: Vec<usize>)
    ensures
        r@ == image_positions(entries@, folder@),
{
    let mut r: Vec<usize> = Vec::new();
    for i in 0..entries.len()
        invariant
            r@ == image_positions(entries@.take(i as int), folder@),
    {
        assert(entries@.take(i + 1).drop_last() =~= entries@.take(i as int));
        assert(entries@.take(i + 1).last() == entries@[i as int]);
        if is_embedded_image(entries[i].path.as_str(), entries[i].file_name.as_str(), folder) {
            r.push(i);
        }
    }
    assert(entries@.take(entries@.len() as int) =~= entries@);
    r
}

/// The cells of a row joined by tabs.
pub open spec fn joined_row(cells: Seq<String>) -> Seq<char>
    decreases cells.len(),
{
    if cells.len() == 0 {
        Seq::empty()
    } else if cells.len() == 1 {
        cells[0]@
    } else {
        joined_row(cells.drop_last()) + "\t"@ + cells.last()@
    }
}

/// Whether a line holds nothing but white space.
pub open spec fn is_blank(line: Seq<char>) -> bool {
    forall|i: int| 0 <= i < line.len() ==> is_white_space(#[trigger] line[i])
}

/// A worksheet flattened to text: one tab-separated line per row, each ended
/// by a newline, blank rows left out.
pub open spec fn sheet_text_of(rows: Seq<Seq<String>>) -> Seq<char>
    decreases rows.len(),
{
    if rows.len() == 0 {
        Seq::empty()
    } else {
        let line = joined_row(rows.last());
        if is_blank(line) {
            sheet_text_of(rows.drop_last())
        } else {
            sheet_text_of(rows.drop_last()) + line + "\n"@
        }
    }
}

fn white_space_char(c: char) -> (r: bool)
    ensures
        r == is_white_space(c),
{
    let v = c as u32;
    (0x9 <= v && v <= 0xD) || v == 0x20 || v == 0x85 || v == 0xA0 || v == 0x1680 || (0x2000 <= v
        && v <= 0x200A) || v == 0x2028 || v == 0x2029 || v == 0x202F || v == 0x205F || v == 0x3000
}

fn blank(line: &str) -> (r: bool)
    ensures
        r == is_blank(line@),
{
    for c in it: line.chars()
        invariant
            it.seq() == line@,
            forall|i: int| 0 <= i < it.index() ==> is_white_space(#[trigger] line@[i]),
    {
        if !white_space_char(c) {
            assert(line@[it.index() as int] == c);
            return false;
        }
    }
    true
}

/// Joins the cells of a row with tabs.
pub fn row_line(cells: &Vec<String>) -> (r: String)
    ensures
        r@ == joined_row(cells@),
{
    let mut line = String::new();
    for i in 0..cells.len()
        invariant
            line@ == joined_row(cells@.take(i as int)),
    {
        assert(cells@.take(i + 1).drop_last() =~= cells@.take(i as int));
        if i > 0 {
            line.append("\t");
        } else {
            assert(line@ =~= Seq::<char>::empty());
        }
        line.append(cells[i].as_str());
    }
    assert(cells@.take(cells@.len() as int) =~= cells@);
    line
}

/// Flattens a worksheet, given as its rows of cell texts, to text.
pub fn sheet_text(rows: &Vec<Vec<String>>) -> (r: String)
    ensures
        r@ == sheet_text_of(rows@.map_values(|row: Vec<String>| row@)),
{
    let ghost views = rows@.map_values(|row: Vec<String>| row@);
    let mut text = String::new();
    for i in 0..rows.len()
        invariant
            views == rows@.map_values(|row: Vec<String>| row@),
            text@ == sheet_text_of(views.take(i as int)),
    {
        assert(views.take(i + 1).drop_last() =~= views.take(i as int));
        assert(views.take(i + 1).last() == rows@[i as int]@);
        let line = row_line(&rows[i]);
        if !blank(line.as_str()) {
            text.append(line.as_str());
            text.append("\n");
        }
    }
    assert(views.take(views.len() as int) =~= views);
    text
}

/// The file name under which a macro module is written out.
pub fn module_file_name(module_name: &str) -> (r: String)
    ensures
        r@ == "VBA_"@ + file_name_safe(module_name@),
{
    let mut r = "VBA_".to_owned();
    let safe = sanitize_file_name(module_name);
    r.append(safe.as_str());
    r
}

/// A macro module of a workbook: its name and its source text.
pub struct MacroModule {
    pub name: String,
    pub code: String,
}

/// A sheet of a workbook: its name, whether it is a worksheet (not a chart or
/// other sheet) and the texts of its cells, row by row.
pub struct Sheet {
    pub name: String,
    pub is_worksheet: bool,
    pub rows: Vec<Vec<String>>,
}

/// A text file that a workbook expands into.
pub struct TextFile {
    pub name: String,
    pub text: String,
}

pub open spec fn text_file_view(f: TextFile) -> (Seq<char>, Seq<char>) {
    (f.name@, f.text@)
}

pub open spec fn rows_view(rows: Seq<Vec<String>>) -> Seq<Seq<String>> {
    rows.map_values(|row: Vec<String>| row@)
}

/// One file per macro module, in order.
pub open spec fn module_files(modules: Seq<MacroModule>) -> Seq<(Seq<char>, Seq<char>)>
    decreases modules.len(),
{
    if modules.len() == 0 {
        Seq::empty()
    } else {
        module_files(modules.drop_last()).push(
            ("VBA_"@ + file_name_safe(modules.last().name@), modules.last().code@),
        )
    }
}

/// One file per worksheet whose flattened text is not empty, in sheet order;
/// other sheets give none.
pub open spec fn sheet_files(sheets: Seq<Sheet>) -> Seq<(Seq<char>, Seq<char>)>
    decreases sheets.len(),
{
    if sheets.len() == 0 {
        Seq::empty()
    } else {
        let s = sheets.last();
        let text = sheet_text_of(rows_view(s.rows@));
        if s.is_worksheet && text.len() > 0 {
            sheet_files(sheets.drop_last()).push((file_name_safe(s.name@), text))
        } else {
            sheet_files(sheets.drop_last())
        }
    }
}

/// The text files a workbook expands into: its macro modules first, then its
/// worksheets.
pub fn workbook_files(modules: &Vec<MacroModule>, sheets: &Vec<Sheet>) -> (r: Vec<TextFile>)
    ensures
        r@.map_values(|f: TextFile| text_file_view(f)) == module_files(modules@) + sheet_files(sheets@),
{
    let mut r: Vec<TextFile> = Vec::new();
    for i in 0..modules.len()
        invariant
            r@.map_values(|f: TextFile| text_file_view(f)) == module_files(modules@.take(i as int)),
    {
        assert(modules@.take(i + 1).drop_last() =~= modules@.take(i as int));
        assert(modules@.take(i + 1).last() == modules@[i as int]);
        let ghost before = r@;
        r.push(TextFile { name: module_file_name(modules[i].name.as_str()), text: modules[i].code.clone() });
        assert(r@.map_values(|f: TextFile| text_file_view(f)) =~= before.map_values(
            |f: TextFile| text_file_view(f),
        ).push(text_file_view(r@.last())));
    }
    assert(modules@.take(modules@.len() as int) =~= modules@);
    let ghost mods = r@.map_values(|f: TextFile| text_file_view(f));
    for i in 0..sheets.len()
        invariant
            mods == module_files(modules@),
            r@.map_values(|f: TextFile| text_file_view(f)) == mods + sheet_files(sheets@.take(i as int)),
    {
        assert(sheets@.take(i + 1).drop_last() =~= sheets@.take(i as int));
        assert(sheets@.take(i + 1).last() == sheets@[i as int]);
        let ghost before = r@;
        if sheets[i].is_worksheet {
            let text = sheet_text(&sheets[i].rows);
            assert(rows_view(sheets@[i as int].rows@) =~= sheets@[i as int].rows@.map_values(
                |row: Vec<String>| row@,
            ));
            if !text.as_str().is_empty() {
                r.push(TextFile { name: sanitize_file_name(sheets[i].name.as_str()), text });
                assert(r@.map_values(|f: TextFile| text_file_view(f)) =~= before.map_values(
                    |f: TextFile| text_file_view(f),
                ).push(text_file_view(r@.last())));
                assert(mods + sheet_files(sheets@.take(i + 1)) =~= (mods + sheet_files(
                    sheets@.take(i as int),
                )).push(text_file_view(r@.last())));
            }
        }
    }
    assert(sheets@.take(sheets@.len() as int) =~= sheets@);
    r
}

/// One attachment of a mail message.
#[derive(Debug)]
pub struct MailAttachment {
    pub name: Option<String>,
    pub contents: Vec<u8>,
}

/// What a mail message holds for the scan.
#[derive(Debug)]
pub struct MailContents {
    pub subject: Option<String>,
    pub body: Option<String>,
    pub attachments: Vec<MailAttachment>,
}

/// What `mail_parser` makes of a raw message: its subject, its first text
/// body and its attachments, or `None` when it cannot be parsed.
pub uninterp spec fn parsed_mail(raw: Seq<u8>) -> Option<MailContents>;

/// Relies on `mail_parser::MessageParser::parse` and on the message's
/// `subject`, `body_text(0)`, `attachments`, `attachment_name` and
/// `contents`: the outcome depends on the bytes alone.
#[verifier::external_body]
fn parse_mail(raw: &[u8]) -> (r: Option<MailContents>)
    ensures
        r == parsed_mail(raw@),
{
    let message = mail_parser::MessageParser::default().parse(raw)?;
    Some(MailContents {
        subject: message.subject().map(|s| s.to_string()),
        body: message.body_text(0).map(|b| b.into_owned()),
        attachments: message.attachments().map(|a| MailAttachment {
            name: a.attachment_name().map(|n| n.to_string()),
            contents: a.contents().to_vec(),
        }).collect(),
    })
}

fn text_or_empty(t: &Option<String>) -> (r: String)
    ensures
        r@ == text_or_empty_of(*t),
{
    match t {
        Some(s) => s.clone(),
        None => String::new(),
    }
}

/// The body text of a mail message: its subject followed by its text body,
/// either left out when absent.
pub open spec fn mail_text_of(m: MailContents) -> Seq<char> {
    text_or_empty_of(m.subject) + text_or_empty_of(m.body)
}

/// The text held, or the empty text.
pub open spec fn text_or_empty_of(t: Option<String>) -> Seq<char> {
    match t {
        Some(s) => s@,
        None => Seq::empty(),
    }
}

/// The name given to the `i`-th attachment when it has none of its own.
pub open spec fn unnamed_attachment_name(i: nat) -> Seq<char> {
    "attachment_"@ + decimal_of(i)
}

/// The files a parsed mail message expands into: its body text as
/// `body.txt`, then each attachment with its data, under its own name or,
/// when it has none, `attachment_<i>`.
pub open spec fn mail_parts_fit(m: MailContents, parts: Seq<MsgPart>) -> bool {
    &&& parts_well_formed(parts)
    &&& parts.len() == m.attachments@.len() + 1
    &&& parts[0].data matches PartData::Text(t) && t@ == mail_text_of(m)
    &&& forall|i: int|
        0 <= i < m.attachments@.len() ==> {
            let p = #[trigger] parts[i + 1];
            &&& p.parent is None
            &&& p.expand
            &&& p.data == PartData::Bytes(m.attachments@[i].contents)
            &&& p.name@ == match m.attachments@[i].name {
                Some(n) => n@,
                None => unnamed_attachment_name(i as nat),
            }
        }
}

/// Splits a parsed mail message into the files it expands into (see
/// `mail_parts_fit`).
pub fn mail_message_parts(m: MailContents) -> (r: Vec<MsgPart>)
    ensures
        mail_parts_fit(m, r@),
{
    let ghost message = m;
    let subject = text_or_empty(&m.subject);
    let body = text_or_empty(&m.body);
    let mut text = subject;
    text.append(body.as_str());
    let mut parts: Vec<MsgPart> = Vec::new();
    proof {
        reveal_strlit("body.txt");
    }
    parts.push(MsgPart { name: "body.txt".to_owned(), data: PartData::Text(text), parent: None, expand: true });
    let mut attachments = m.attachments;
    let total = attachments.len();
    let ghost all = attachments@;
    let mut rest: Vec<MailAttachment> = Vec::new();
    while attachments.len() > 0
        invariant
            attachments@.len() <= all.len(),
            attachments@ == all.take(attachments@.len() as int),
            rest@.len() == all.len() - attachments@.len(),
            forall|k: int| 0 <= k < rest@.len() ==> #[trigger] rest@[k] == all[all.len() - 1 - k],
        decreases attachments@.len(),
    {
        let a = attachments.pop().unwrap();
        rest.push(a);
        assert(attachments@ =~= all.take(attachments@.len() as int));
    }
    let mut index: usize = 0;
    while rest.len() > 0
        invariant
            all == message.attachments@,
            total == all.len(),
            rest@.len() <= all.len(),
            index == all.len() - rest@.len(),
            parts@.len() == 1 + index,
            forall|k: int| 0 <= k < rest@.len() ==> #[trigger] rest@[k] == all[all.len() - 1 - k],
            parts_well_formed(parts@),
            parts@[0].data matches PartData::Text(t) && t@ == mail_text_of(message),
            forall|i: int|
                0 <= i < index ==> {
                    let p = #[trigger] parts@[i + 1];
                    &&& p.parent is None
                    &&& p.expand
                    &&& p.data == PartData::Bytes(all[i].contents)
                    &&& p.name@ == match all[i].name {
                        Some(n) => n@,
                        None => unnamed_attachment_name(i as nat),
                    }
                },
        decreases rest@.len(),
    {
        let a = rest.pop().unwrap();
        let name = match a.name {
            Some(n) => n,
            None => {
                let mut n = "attachment_".to_owned();
                n.append(decimal(index as u64).as_str());
                n
            },
        };
        parts.push(MsgPart { name, data: PartData::Bytes(a.contents), parent: None, expand: true });
        index = index + 1;
    }
    parts
}

/// Parses a raw mail message and splits it into the files it expands into
/// (see `mail_parts_fit`); `None` when it cannot be parsed.
pub fn mail_parts(raw: &[u8]) -> (r: Option<Vec<MsgPart>>)
    ensures
        r is Some <==> parsed_mail(raw@) is Some,
        r matches Some(parts) ==> mail_parts_fit(parsed_mail(raw@)->0, parts@),
{
    match parse_mail(raw) {
        Some(m) => Some(mail_message_parts(m)),
        None => None,
    }
}

} // verus!
