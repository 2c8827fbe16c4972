//! The compound-document message walker: recovers the subject, body and
//! attachments of a message stored as a compound file, following messages
//! attached to messages through an explicit work-list.
use vstd::prelude::*;
use std::io::Read;
use vstd::string::StringExecFns;
use crate::text::{file_name_safe, sanitize_file_name};

verus! {

#[verifier::external_type_specification]
#[verifier::external_body]
#[verifier::reject_recursive_types(T)]
pub struct ExCursor<T>(std::io::Cursor<T>);

#[verifier::external_type_specification]
#[verifier::external_body]
#[verifier::reject_recursive_types(F)]
pub struct ExCompoundFile<F>(cfb::CompoundFile<F>);

/// An open compound file, read from memory.
pub type Compound = cfb::CompoundFile<std::io::Cursor<Vec<u8>>>;

/// The text that `encoding_rs`'s UTF-16LE decoder makes of `bytes`.
pub uninterp spec fn utf16le_text(bytes: Seq<u8>) -> Seq<char>;

/// The streams of a compound file that read in full, by the path they are
/// asked for under.
pub uninterp spec fn compound_streams(cf: Compound) -> Map<Seq<char>, Seq<u8>>;

/// The paths at which a stream or a storage of a compound file stands.
pub uninterp spec fn compound_entries(cf: Compound) -> Set<Seq<char>>;

/// The entries directly inside each storage of a compound file, by the path
/// they are asked for under: whether each is a storage, its name and its
/// full path.
pub uninterp spec fn compound_storages(cf: Compound) -> Map<Seq<char>, Seq<(bool, Seq<char>, Seq<char>)>>;

/// What a compound file holds, as the walk sees it: the streams that read
/// in full, the paths at which something stands, and the entries of each
/// storage, each by the path it is asked for under.
pub struct CompoundView {
    pub streams: Map<Seq<char>, Seq<u8>>,
    pub entries: Set<Seq<char>>,
    pub storages: Map<Seq<char>, Seq<(bool, Seq<char>, Seq<char>)>>,
}

pub open spec fn contents_of(cf: Compound) -> CompoundView {
    CompoundView { streams: compound_streams(cf), entries: compound_entries(cf), storages: compound_storages(cf) }
}

/// What the bytes `bytes` hold when they open as a compound file, or `None`
/// when they do not.
pub uninterp spec fn parsed_compound(bytes: Seq<u8>) -> Option<CompoundView>;

/// Whether two compound files hold the same streams, entries and storages.
pub open spec fn same_compound(a: Compound, b: Compound) -> bool {
    &&& compound_streams(a) == compound_streams(b)
    &&& compound_entries(a) == compound_entries(b)
    &&& compound_storages(a) == compound_storages(b)
}

/// Relies on `cfb::CompoundFile::open`: parses the header and directory of a
/// compound file held in memory; `None` when they are malformed. What the
/// file holds depends on the bytes alone.
#[verifier::external_body]
fn open_compound(bytes: Vec<u8>) -> (r: Option<Compound>)
    ensures
        match r {
            Some(cf) => parsed_compound(bytes@) == Some(contents_of(cf)),
            None => parsed_compound(bytes@) is None,
        },
{
    cfb::CompoundFile::open(std::io::Cursor::new(bytes)).ok()
}

/// Relies on `cfb::CompoundFile::exists`: whether a stream or storage stands
/// at `path`.
#[verifier::external_body]
fn entry_exists(cf: &Compound, path: &str) -> (r: bool)
    ensures
        r == compound_entries(*cf).contains(path@),
{
    cf.exists(path)
}

/// Relies on `cfb::CompoundFile::open_stream` and `Read::read_to_end`: the
/// bytes of the stream at `path`, or `None` when there is none or it cannot
/// be read in full. Reading leaves the file as it was.
#[verifier::external_body]
fn read_stream(cf: &mut Compound, path: &str) -> (r: Option<Vec<u8>>)
    ensures
        same_compound(*final(cf), *old(cf)),
        match r {
            Some(d) => compound_streams(*old(cf)).contains_key(path@) && d@ == compound_streams(
                *old(cf),
            )[path@],
            None => !compound_streams(*old(cf)).contains_key(path@),
        },
{
    let mut stream = cf.open_stream(path).ok()?;
    let mut data = Vec::new();
    stream.read_to_end(&mut data).ok()?;
    Some(data)
}

/// One entry of a storage: whether it is a storage itself, its name and its
/// full path.
pub struct StorageEntry {
    pub is_storage: bool,
    pub name: String,
    pub path: String,
}

pub open spec fn entry_view(e: StorageEntry) -> (bool, Seq<char>, Seq<char>) {
    (e.is_storage, e.name@, e.path@)
}

/// Relies on `cfb::CompoundFile::read_storage`: the entries directly inside
/// the storage at `path`, or `None` when there is no such storage.
#[verifier::external_body]
fn storage_entries(cf: &Compound, path: &str) -> (r: Option<Vec<StorageEntry>>)
    ensures
        match r {
            Some(v) => compound_storages(*cf).contains_key(path@) && v@.map_values(
                |e: StorageEntry| entry_view(e),
            ) == compound_storages(*cf)[path@],
            None => !compound_storages(*cf).contains_key(path@),
        },
{
    let entries = cf.read_storage(path).ok()?;
    Some(
        entries.map(|e| StorageEntry {
            is_storage: e.is_storage(),
            name: e.name().to_string(),
            path: e.path().to_string_lossy().into_owned(),
        }).collect(),
    )
}

/// Relies on `encoding_rs::UTF_16LE.decode`: the result depends on the bytes
/// alone.
#[verifier::external_body]
fn decode_utf16le(bytes: &[u8]) -> (r: String)
    ensures
        r@ == utf16le_text(bytes@),
{
    encoding_rs::UTF_16LE.decode(bytes).0.into_owned()
}

/// Why a message could not be walked. Each stands for an input the walker
/// has no defined handling for, and ends the whole scan.
#[derive(Clone, Copy, Debug, PartialEq, Eq, Structural)]
pub enum MsgError {
    /// A message has no subject stream.
    MissingSubject,
    /// A message has no body stream.
    MissingBody,
    /// A file attachment has no file-name stream, or its data cannot be read.
    MissingAttachmentData,
    /// An attached message has no display-name stream.
    MissingDisplayName,
    /// An attachment storage is neither a file nor a message.
    UnknownAttachment,
    /// The work-list ran past the number of storages the file can hold.
    TooDeep,
}

/// What a part holds.
#[derive(Debug)]
pub enum PartData {
    Text(String),
    Bytes(Vec<u8>),
}

/// A file recovered from a message: its name, its contents, the earlier part
/// (an attached message's placeholder) that it sits in, and whether it is to
/// be opened.
#[derive(Debug)]
pub struct MsgPart {
    pub name: String,
    pub data: PartData,
    pub parent: Option<usize>,
    pub expand: bool,
}

/// The text file written for a message: its subject, a blank line, its body.
pub open spec fn body_text_of(subject: Seq<char>, body: Seq<char>) -> Seq<char> {
    subject + "\n\n"@ + body
}

/// The name of the placeholder recorded for an attached message.
pub open spec fn placeholder_name_of(display_name: Seq<char>) -> Seq<char> {
    file_name_safe(display_name) + ".msg"@
}

/// Whether an entry of a message storage is an attachment storage.
pub open spec fn is_attachment_entry(is_storage: bool, name: Seq<char>) -> bool {
    is_storage && name.len() >= 9 && name.take(9) == "__attach_"@
}

/// The shape that the walker promises of its parts: the first is the body
/// text of the message; every part that sits in another sits in an earlier
/// placeholder; placeholders are empty and are not opened.
pub open spec fn parts_well_formed(parts: Seq<MsgPart>) -> bool {
    &&& parts.len() >= 1
    &&& parts[0].name@ == "body.txt"@
    &&& parts[0].parent is None
    &&& parts[0].expand
    &&& forall|i: int|
        0 <= i < parts.len() ==> match #[trigger] parts[i].parent {
            Some(p) => p < i && !parts[p as int].expand,
            None => true,
        }
    &&& forall|i: int|
        0 <= i < parts.len() && !(#[trigger] parts[i]).expand ==> (parts[i].data matches PartData::Text(
            t,
        ) && t@.len() == 0)
}

/// The paths of the attachment storages among a storage's entries, in order.
pub open spec fn attachment_paths(entries: Seq<(bool, Seq<char>, Seq<char>)>) -> Seq<Seq<char>>
    decreases entries.len(),
{
    if entries.len() == 0 {
        Seq::empty()
    } else {
        let e = entries.last();
        if is_attachment_entry(e.0, e.1) {
            attachment_paths(entries.drop_last()).push(e.2)
        } else {
            attachment_paths(entries.drop_last())
        }
    }
}

/// The attachment storages of the message at `path`: none when there is no
/// storage there.
pub open spec fn attachments_at(c: CompoundView, path: Seq<char>) -> Seq<Seq<char>> {
    if c.storages.contains_key(path) {
        attachment_paths(c.storages[path])
    } else {
        Seq::empty()
    }
}

/// The path of the entry `name` inside the storage at `base`.
pub open spec fn joined(base: Seq<char>, name: Seq<char>) -> Seq<char> {
    base + "/"@ + name
}

fn join_path(base: &str, name: &str) -> (r: String)
    ensures
        r@ == base@ + "/"@ + name@,
{
    let mut r = base.to_owned();
    r.append("/");
    r.append(name);
    r
}

/// Joins a subject and a body into the text of a message's body file.
pub fn message_body_text(subject: &str, body: &str) -> (r: String)
    ensures
        r@ == body_text_of(subject@, body@),
{
    let mut r = subject.to_owned();
    r.append("\n\n");
    r.append(body);
    r
}

/// The placeholder name of an attached message with this display name.
pub fn placeholder_name(display_name: &str) -> (r: String)
    ensures
        r@ == placeholder_name_of(display_name@),
{
    let mut r = sanitize_file_name(display_name);
    r.append(".msg");
    r
}

/// Whether an entry is an attachment storage: a storage whose name starts
/// with `__attach_`.
pub fn is_attachment(is_storage: bool, name: &str) -> (r: bool)
    ensures
        r == is_attachment_entry(is_storage, name@),
{
    proof {
        reveal_strlit("__attach_");
    }
    if !is_storage || name.unicode_len() < 9 {
        return false;
    }
    let prefix = name.substring_char(0, 9);
    prefix.to_owned() == "__attach_".to_owned()
}

fn read_text_stream(cf: &mut Compound, path: &str) -> (r: Option<String>)
    ensures
        same_compound(*final(cf), *old(cf)),
        match r {
            Some(t) => compound_streams(*old(cf)).contains_key(path@) && t@ == utf16le_text(
                compound_streams(*old(cf))[path@],
            ),
            None => !compound_streams(*old(cf)).contains_key(path@),
        },
{
    match read_stream(cf, path) {
        Some(data) => Some(decode_utf16le(data.as_slice())),
        None => None,
    }
}

/// Reads the subject, the body and the attachment storages of the message
/// stored at `path`. The subject and body streams hold UTF-16LE text; a
/// message without either is an error.
pub fn msg_get_contents(cf: &mut Compound, path: &str) -> (r: Result<(String, String, Vec<String>), MsgError>)
    ensures
        same_compound(*final(cf), *old(cf)),
        ({
            let streams = compound_streams(*old(cf));
            let sp = joined(path@, "__substg1.0_0037001F"@);
            let bp = joined(path@, "__substg1.0_1000001F"@);
            &&& !streams.contains_key(sp) ==> r == Err::<(String, String, Vec<String>), MsgError>(
                MsgError::MissingSubject,
            )
            &&& streams.contains_key(sp) && !streams.contains_key(bp) ==> r == Err::<
                (String, String, Vec<String>),
                MsgError,
            >(MsgError::MissingBody)
            &&& streams.contains_key(sp) && streams.contains_key(bp) ==> (r matches Ok((s, b, a))
                && s@ == utf16le_text(streams[sp]) && b@ == utf16le_text(streams[bp])
                && a@.map_values(|x: String| x@) == attachments_at(contents_of(*old(cf)), path@))
        }),
{
    let subject_path = join_path(path, "__substg1.0_0037001F");
    let subject = match read_text_stream(cf, subject_path.as_str()) {
        Some(s) => s,
        None => {
            return Err(MsgError::MissingSubject);
        },
    };
    let body_path = join_path(path, "__substg1.0_1000001F");
    let body = match read_text_stream(cf, body_path.as_str()) {
        Some(b) => b,
        None => {
            return Err(MsgError::MissingBody);
        },
    };
    let mut attachments: Vec<String> = Vec::new();
    match storage_entries(cf, path) {
        Some(entries) => {
            let ghost views = entries@.map_values(|e: StorageEntry| entry_view(e));
            for i in 0..entries.len()
                invariant
                    views == entries@.map_values(|e: StorageEntry| entry_view(e)),
                    attachments@.map_values(|x: String| x@) == attachment_paths(views.take(i as int)),
            {
                assert(views.take(i + 1).drop_last() =~= views.take(i as int));
                assert(views.take(i + 1).last() == entry_view(entries@[i as int]));
                let ghost before = attachments@;
                if is_attachment(entries[i].is_storage, entries[i].name.as_str()) {
                    attachments.push(entries[i].path.clone());
                    assert(attachments@.map_values(|x: String| x@) =~= before.map_values(|x: String| x@).push(entries@[i as int].path@));
                }
            }
            assert(views.take(views.len() as int) =~= views);
        },
        None => {
            assert(attachments@.map_values(|x: String| x@) =~= Seq::<Seq<char>>::empty());
        },
    }
    Ok((subject, body, attachments))
}

/// A part as the walk's specification sees it.
pub struct PartSpec {
    pub name: Seq<char>,
    pub data: DataSpec,
    pub parent: Option<usize>,
    pub expand: bool,
}

pub enum DataSpec {
    Text(Seq<char>),
    Bytes(Seq<u8>),
}

pub open spec fn part_view(p: MsgPart) -> PartSpec {
    PartSpec {
        name: p.name@,
        data: match p.data {
            PartData::Text(t) => DataSpec::Text(t@),
            PartData::Bytes(b) => DataSpec::Bytes(b@),
        },
        parent: p.parent,
        expand: p.expand,
    }
}

pub open spec fn parts_view(ps: Seq<MsgPart>) -> Seq<PartSpec> {
    ps.map_values(|p: MsgPart| part_view(p))
}

/// An entry of the work-list: the placeholder that the attachments sit in
/// (none for the outermost message) and the paths of their storages.
pub open spec fn work_view(w: (Option<usize>, Vec<String>)) -> (Option<usize>, Seq<Seq<char>>) {
    (w.0, w.1@.map_values(|s: String| s@))
}

pub open spec fn works_view(ws: Seq<(Option<usize>, Vec<String>)>) -> Seq<(Option<usize>, Seq<Seq<char>>)> {
    ws.map_values(|w: (Option<usize>, Vec<String>)| work_view(w))
}

/// The walk of one attachment storage `s` of the message whose placeholder
/// is `owner`: a file attachment adds a part with its file name and data; an
/// attached message adds its placeholder and its body text, and queues its
/// own attachments, if any; any other storage is an error, as is a missing
/// stream.
pub open spec fn walk_step(
    c: CompoundView,
    owner: Option<usize>,
    parts: Seq<PartSpec>,
    work: Seq<(Option<usize>, Seq<Seq<char>>)>,
    s: Seq<char>,
) -> Result<(Seq<PartSpec>, Seq<(Option<usize>, Seq<Seq<char>>)>), MsgError> {
    let streams = c.streams;
    let data_path = joined(s, "__substg1.0_37010102"@);
    let message_path = joined(s, "__substg1.0_3701000D"@);
    if c.entries.contains(data_path) {
        let name_path = joined(s, "__substg1.0_3707001F"@);
        if !streams.contains_key(name_path) || !streams.contains_key(data_path) {
            Err(MsgError::MissingAttachmentData)
        } else {
            Ok(
                (
                    parts.push(
                        PartSpec {
                            name: utf16le_text(streams[name_path]),
                            data: DataSpec::Bytes(streams[data_path]),
                            parent: owner,
                            expand: true,
                        },
                    ),
                    work,
                ),
            )
        }
    } else if c.entries.contains(message_path) {
        let display_path = joined(s, "__substg1.0_3001001F"@);
        let sp = joined(message_path, "__substg1.0_0037001F"@);
        let bp = joined(message_path, "__substg1.0_1000001F"@);
        if !streams.contains_key(display_path) {
            Err(MsgError::MissingDisplayName)
        } else if !streams.contains_key(sp) {
            Err(MsgError::MissingSubject)
        } else if !streams.contains_key(bp) {
            Err(MsgError::MissingBody)
        } else {
            let placeholder = parts.len() as usize;
            let nested = attachments_at(c, message_path);
            Ok(
                (
                    parts.push(
                        PartSpec {
                            name: placeholder_name_of(utf16le_text(streams[display_path])),
                            data: DataSpec::Text(Seq::empty()),
                            parent: owner,
                            expand: false,
                        },
                    ).push(
                        PartSpec {
                            name: "body.txt"@,
                            data: DataSpec::Text(
                                body_text_of(utf16le_text(streams[sp]), utf16le_text(streams[bp])),
                            ),
                            parent: Some(placeholder),
                            expand: true,
                        },
                    ),
                    if nested.len() > 0 {
                        work.push((Some(placeholder), nested))
                    } else {
                        work
                    },
                ),
            )
        }
    } else {
        Err(MsgError::UnknownAttachment)
    }
}

/// The walk of the attachment storages of one work-list entry, in order; the
/// first error ends it.
pub open spec fn walk_storages(
    c: CompoundView,
    owner: Option<usize>,
    storages: Seq<Seq<char>>,
    parts: Seq<PartSpec>,
    work: Seq<(Option<usize>, Seq<Seq<char>>)>,
) -> Result<(Seq<PartSpec>, Seq<(Option<usize>, Seq<Seq<char>>)>), MsgError>
    decreases storages.len(),
{
    if storages.len() == 0 {
        Ok((parts, work))
    } else {
        match walk_storages(c, owner, storages.drop_last(), parts, work) {
            Err(e) => Err(e),
            Ok((p, w)) => walk_step(c, owner, p, w, storages.last()),
        }
    }
}

/// The walk of the work-list, last entry first, taking at most `budget`
/// entries.
pub open spec fn walk_work(
    c: CompoundView,
    parts: Seq<PartSpec>,
    work: Seq<(Option<usize>, Seq<Seq<char>>)>,
    budget: nat,
) -> Result<Seq<PartSpec>, MsgError>
    decreases budget,
{
    if work.len() == 0 {
        Ok(parts)
    } else if budget == 0 {
        Err(MsgError::TooDeep)
    } else {
        match walk_storages(c, work.last().0, work.last().1, parts, work.drop_last()) {
            Err(e) => Err(e),
            Ok((p, w)) => walk_work(c, p, w, (budget - 1) as nat),
        }
    }
}

/// The walk of the message at the root of a compound file: its body text
/// first, then the walk of the work-list that holds its attachments.
pub open spec fn walked(c: CompoundView, budget: nat) -> Result<Seq<PartSpec>, MsgError> {
    let streams = c.streams;
    let sp = joined("/"@, "__substg1.0_0037001F"@);
    let bp = joined("/"@, "__substg1.0_1000001F"@);
    if !streams.contains_key(sp) {
        Err(MsgError::MissingSubject)
    } else if !streams.contains_key(bp) {
        Err(MsgError::MissingBody)
    } else {
        let first = PartSpec {
            name: "body.txt"@,
            data: DataSpec::Text(body_text_of(utf16le_text(streams[sp]), utf16le_text(streams[bp]))),
            parent: None,
            expand: true,
        };
        let top = attachments_at(c, "/"@);
        walk_work(
            c,
            seq![first],
            if top.len() > 0 {
                seq![(None, top)]
            } else {
                seq![]
            },
            budget,
        )
    }
}

proof fn lemma_walk_storages_error_stays(
    c: CompoundView,
    owner: Option<usize>,
    storages: Seq<Seq<char>>,
    k: int,
    parts: Seq<PartSpec>,
    work: Seq<(Option<usize>, Seq<Seq<char>>)>,
)
    requires
        0 <= k <= storages.len(),
        walk_storages(c, owner, storages.take(k), parts, work) is Err,
    ensures
        walk_storages(c, owner, storages, parts, work) == walk_storages(c, owner, storages.take(k), parts, work),
    decreases storages.len() - k,
{
    if k == storages.len() {
        assert(storages.take(k) =~= storages);
    } else {
        assert(storages.take(k + 1).drop_last() =~= storages.take(k));
        lemma_walk_storages_error_stays(c, owner, storages, k + 1, parts, work);
    }
}

/// Whether every part's and every work-list entry's placeholder comes
/// earlier among the parts and is a placeholder.
pub open spec fn owners_valid(parts: Seq<MsgPart>, work: Seq<(Option<usize>, Vec<String>)>) -> bool {
    forall|w: int|
        0 <= w < work.len() ==> match (#[trigger] work[w]).0 {
            Some(p) => p < parts.len() && !parts[p as int].expand,
            None => true,
        }
}

pub open spec fn owner_valid(parts: Seq<MsgPart>, owner: Option<usize>) -> bool {
    match owner {
        Some(p) => p < parts.len() && !parts[p as int].expand,
        None => true,
    }
}

/// Walks one attachment storage (see `walk_step`), adding to `parts` and
/// `work`.
fn walk_attachment(
    cf: &mut Compound,
    owner: Option<usize>,
    storage: &String,
    parts: &mut Vec<MsgPart>,
    work: &mut Vec<(Option<usize>, Vec<String>)>,
) -> (r: Result<(), MsgError>)
    requires
        parts_well_formed(old(parts)@),
        owner_valid(old(parts)@, owner),
        owners_valid(old(parts)@, old(work)@),
    ensures
        same_compound(*final(cf), *old(cf)),
        r is Ok ==> {
            &&& parts_well_formed(final(parts)@)
            &&& owner_valid(final(parts)@, owner)
            &&& owners_valid(final(parts)@, final(work)@)
            &&& final(parts)@.len() >= old(parts)@.len()
            &&& final(parts)@.take(old(parts)@.len() as int) == old(parts)@
        },
        match r {
            Ok(()) => walk_step(contents_of(*old(cf)), owner, parts_view(old(parts)@), works_view(old(work)@), storage@)
                == Ok::<_, MsgError>((parts_view(final(parts)@), works_view(final(work)@))),
            Err(e) => walk_step(contents_of(*old(cf)), owner, parts_view(old(parts)@), works_view(old(work)@), storage@)
                == Err::<(Seq<PartSpec>, Seq<(Option<usize>, Seq<Seq<char>>)>), MsgError>(e),
        },
{
    let ghost parts0 = parts@;
    let ghost work0 = work@;
    let data_path = join_path(storage.as_str(), "__substg1.0_37010102");
    let message_path = join_path(storage.as_str(), "__substg1.0_3701000D");
    if entry_exists(cf, data_path.as_str()) {
        let name_path = join_path(storage.as_str(), "__substg1.0_3707001F");
        let file_name = match read_text_stream(cf, name_path.as_str()) {
            Some(n) => n,
            None => {
                return Err(MsgError::MissingAttachmentData);
            },
        };
        let data = match read_stream(cf, data_path.as_str()) {
            Some(d) => d,
            None => {
                return Err(MsgError::MissingAttachmentData);
            },
        };
        parts.push(MsgPart { name: file_name, data: PartData::Bytes(data), parent: owner, expand: true });
        assert(parts_view(parts@) =~= parts_view(parts0).push(part_view(parts@.last())));
        assert(parts@.take(parts0.len() as int) =~= parts0);
        assert(forall|i: int| 0 <= i < parts0.len() ==> parts@[i] == #[trigger] parts0[i]);
        Ok(())
    } else if entry_exists(cf, message_path.as_str()) {
        let display_path = join_path(storage.as_str(), "__substg1.0_3001001F");
        let display_name = match read_text_stream(cf, display_path.as_str()) {
            Some(n) => n,
            None => {
                return Err(MsgError::MissingDisplayName);
            },
        };
        let placeholder = parts.len();
        parts.push(
            MsgPart {
                name: placeholder_name(display_name.as_str()),
                data: PartData::Text(String::new()),
                parent: owner,
                expand: false,
            },
        );
        let (subject, body, nested) = msg_get_contents(cf, message_path.as_str())?;
        proof {
            reveal_strlit("body.txt");
        }
        parts.push(
            MsgPart {
                name: "body.txt".to_owned(),
                data: PartData::Text(message_body_text(subject.as_str(), body.as_str())),
                parent: Some(placeholder),
                expand: true,
            },
        );
        assert(parts_view(parts@) =~= parts_view(parts0).push(part_view(parts@[parts0.len() as int])).push(
            part_view(parts@[parts0.len() as int + 1]),
        ));
        assert(parts@.take(parts0.len() as int) =~= parts0);
        assert(forall|i: int| 0 <= i < parts0.len() ==> parts@[i] == #[trigger] parts0[i]);
        if nested.len() > 0 {
            work.push((Some(placeholder), nested));
            assert(works_view(work@) =~= works_view(work0).push(work_view(work@.last())));
        }
        Ok(())
    } else {
        Err(MsgError::UnknownAttachment)
    }
}

/// Walks a message held in a compound file: first its body text, then each
/// attachment in turn. A file attachment becomes a part of its own; an
/// attached message becomes an empty placeholder, then its own body text, and
/// its attachments are queued on the work-list and walked after the current
/// ones (see `walked`, with the length of the file as the budget).
/// `Ok(None)` when the bytes are not a compound file.
pub fn walk_message(bytes: Vec<u8>) -> (r: Result<Option<Vec<MsgPart>>, MsgError>)
    ensures
        r matches Ok(Some(parts)) ==> parts_well_formed(parts@),
        match r {
            Ok(None) => parsed_compound(bytes@) is None,
            Ok(Some(parts)) => parsed_compound(bytes@) matches Some(c) && walked(c, bytes@.len())
                == Ok::<Seq<PartSpec>, MsgError>(parts_view(parts@)),
            Err(e) => parsed_compound(bytes@) matches Some(c) && walked(c, bytes@.len())
                == Err::<Seq<PartSpec>, MsgError>(e),
        },
{
    let budget = bytes.len();
    match open_compound(bytes) {
        Some(mut cf) => match walk_compound(&mut cf, budget) {
            Ok(parts) => Ok(Some(parts)),
            Err(e) => Err(e),
        },
        None => Ok(None),
    }
}

/// Walks the message at the root of an open compound file (see
/// `walk_message`). `budget` bounds the number of work items taken from the
/// work-list; a budget of the file's length in bytes is never reached, since
/// each work item is a distinct message storage, a directory entry of 128
/// bytes.
pub fn walk_compound(cf: &mut Compound, budget: usize) -> (r: Result<Vec<MsgPart>, MsgError>)
    ensures
        ({
            let streams = compound_streams(*old(cf));
            let sp = joined("/"@, "__substg1.0_0037001F"@);
            let bp = joined("/"@, "__substg1.0_1000001F"@);
            &&& !streams.contains_key(sp) ==> r == Err::<Vec<MsgPart>, MsgError>(MsgError::MissingSubject)
            &&& streams.contains_key(sp) && !streams.contains_key(bp) ==> r == Err::<
                Vec<MsgPart>,
                MsgError,
            >(MsgError::MissingBody)
            &&& r matches Ok(parts) ==> {
                &&& parts_well_formed(parts@)
                &&& parts@[0].data matches PartData::Text(t) && t@ == body_text_of(
                    utf16le_text(streams[sp]),
                    utf16le_text(streams[bp]),
                )
                &&& attachments_at(contents_of(*old(cf)), "/"@).len() == 0 ==> parts@.len() == 1
            }
        }),
        walked(contents_of(*old(cf)), budget as nat) == match r {
            Ok(ps) => Ok::<Seq<PartSpec>, MsgError>(parts_view(ps@)),
            Err(err) => Err::<Seq<PartSpec>, MsgError>(err),
        },
{
    let ghost cf0 = contents_of(*cf);
    let ghost budget0 = budget;
    let (subject, body, top_attachments) = msg_get_contents(cf, "/")?;
    let mut parts: Vec<MsgPart> = Vec::new();
    proof {
        reveal_strlit("body.txt");
    }
    parts.push(
        MsgPart {
            name: "body.txt".to_owned(),
            data: PartData::Text(message_body_text(subject.as_str(), body.as_str())),
            parent: None,
            expand: true,
        },
    );
    let mut work: Vec<(Option<usize>, Vec<String>)> = Vec::new();
    if top_attachments.len() > 0 {
        work.push((None, top_attachments));
    }
    let mut remaining = budget;
    let ghost first = parts@[0];
    let ghost no_attachments = top_attachments@.len() == 0;
    assert(no_attachments ==> work@.len() == 0);
    assert(parts_view(parts@) =~= seq![part_view(first)]);
    proof {
        if !no_attachments {
            assert(works_view(work@) =~= seq![work_view(work@[0])]);
        } else {
            assert(works_view(work@) =~= Seq::<(Option<usize>, Seq<Seq<char>>)>::empty());
        }
    }
    while work.len() > 0
        invariant
            cf0 == contents_of(*old(cf)),
            budget0 == budget,
            walk_work(cf0, parts_view(parts@), works_view(work@), remaining as nat) == walked(
                cf0,
                budget0 as nat,
            ),
            same_compound(*cf, *old(cf)),
            compound_streams(*old(cf)).contains_key(joined("/"@, "__substg1.0_0037001F"@)),
            compound_streams(*old(cf)).contains_key(joined("/"@, "__substg1.0_1000001F"@)),
            parts@.len() >= 1,
            parts@[0] == first,
            no_attachments ==> parts@.len() == 1 && work@.len() == 0,
            parts_well_formed(parts@),
            forall|w: int|
                0 <= w < work@.len() ==> match (#[trigger] work@[w]).0 {
                    Some(p) => p < parts@.len() && !parts@[p as int].expand,
                    None => true,
                },
        decreases remaining,
    {
        if remaining == 0 {
            return Err(MsgError::TooDeep);
        }
        remaining = remaining - 1;
        let ghost work_before = work@;
        let (owner, storages) = work.pop().unwrap();
        let ghost sv = storages@.map_values(|x: String| x@);
        let ghost p0 = parts_view(parts@);
        let ghost w0 = works_view(work@);
        assert(works_view(work_before).last() == (owner, sv));
        assert(works_view(work_before).drop_last() =~= w0);
        for k in 0..storages.len()
            invariant
                cf0 == contents_of(*old(cf)),
                budget0 == budget,
                sv == storages@.map_values(|x: String| x@),
                walked(cf0, budget0 as nat) == match walk_storages(cf0, owner, sv, p0, w0) {
                    Err(e) => Err(e),
                    Ok((p, w)) => walk_work(cf0, p, w, remaining as nat),
                },
                walk_storages(cf0, owner, sv.take(k as int), p0, w0) == Ok::<_, MsgError>(
                    (parts_view(parts@), works_view(work@)),
                ),
                same_compound(*cf, *old(cf)),
                compound_streams(*old(cf)).contains_key(joined("/"@, "__substg1.0_0037001F"@)),
                compound_streams(*old(cf)).contains_key(joined("/"@, "__substg1.0_1000001F"@)),
                parts@.len() >= 1,
                parts@[0] == first,
                !no_attachments,
                parts_well_formed(parts@),
                owner_valid(parts@, owner),
                owners_valid(parts@, work@),
        {
            assert(sv.take(k + 1).drop_last() =~= sv.take(k as int));
            assert(sv.take(k + 1).last() == storages@[k as int]@);
            match walk_attachment(cf, owner, &storages[k], &mut parts, &mut work) {
                Ok(()) => {},
                Err(e) => {
                    proof {
                        lemma_walk_storages_error_stays(cf0, owner, sv, k + 1, p0, w0);
                    }
                    return Err(e);
                },
            }
        }
        assert(sv.take(sv.len() as int) =~= sv);
    }
    Ok(parts)
}

} // verus!
