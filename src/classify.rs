//! The file type classifier: an allow-list of extensions, then the leading
//! bytes of the file against a table of signatures.
use vstd::prelude::*;
use vstd::string::StrSliceExecFns;

verus! {

/// The index of the last `.` in `name`, or -1 when it has none.
pub open spec fn last_dot_index(name: Seq<char>) -> int
    decreases name.len(),
{
    if name.len() == 0 {
        -1
    } else if name.last() == '.' {
        name.len() - 1
    } else {
        last_dot_index(name.drop_last())
    }
}

/// The extension of a file name: what follows its last `.`, unless that `.`
/// opens the name; empty when there is none.
pub open spec fn extension_of(name: Seq<char>) -> Seq<char> {
    let k = last_dot_index(name);
    if k <= 0 {
        Seq::empty()
    } else {
        name.subrange(k + 1, name.len() as int)
    }
}

/// The lower-case form of `s` that `str::to_lowercase` gives.
pub uninterp spec fn lowercase_of(s: Seq<char>) -> Seq<char>;

/// Relies on `str::to_lowercase`: the result depends on the characters alone,
/// and an empty string stays empty.
#[verifier::external_body]
pub(crate) fn lowercase(s: &str) -> (r: String)
    ensures
        r@ == lowercase_of(s@),
        s@.len() == 0 ==> r@.len() == 0,
{
    s.to_lowercase()
}

/// The extensions that are dispatched on without looking at the file's bytes.
pub open spec fn is_supported_extension(e: Seq<char>) -> bool {
    e == "csv"@ || e == "doc"@ || e == "docm"@ || e == "docx"@ || e == "eml"@ || e == "jpeg"@
        || e == "jpg"@ || e == "msg"@ || e == "ods"@ || e == "odt"@ || e == "pdf"@ || e
        == "png"@ || e == "txt"@ || e == "xlam"@ || e == "xls"@ || e == "xlsb"@ || e == "xlsm"@
        || e == "xlsx"@
}

/// Whether `header` begins with the bytes of `signature`.
pub open spec fn has_prefix(header: Seq<u8>, signature: Seq<u8>) -> bool {
    signature.len() <= header.len() && header.take(signature.len() as int) == signature
}

/// The signature table, in priority order: the declared extension of the
/// first signature that the header begins with.
pub open spec fn sniffed_extension(h: Seq<u8>) -> Option<Seq<char>> {
    if has_prefix(h, seq![0x37u8, 0x7A, 0xBC, 0xAF, 0x27, 0x1C]) {
        Some("7z"@)
    } else if has_prefix(h, seq![0x25u8, 0x50, 0x44, 0x46, 0x2D]) {
        Some("pdf"@)
    } else if has_prefix(h, seq![0x50u8, 0x4B, 0x03, 0x04]) {
        Some("zip"@)
    } else if has_prefix(h, seq![0xEFu8, 0xBB, 0xBF]) {
        Some("txt"@)
    } else if has_prefix(h, seq![0x1Fu8, 0x8B]) {
        Some("gzip"@)
    } else if has_prefix(h, seq![0xFEu8, 0xFF]) {
        Some("txt"@)
    } else if has_prefix(h, seq![0xFFu8, 0xFE]) {
        Some("txt"@)
    } else {
        None
    }
}

/// Files shorter than this are dispatched by extension alone.
pub const MIN_SNIFF_LEN: u64 = 16;

/// The format tag of a file whose lower-cased extension is `ext`: the
/// extension itself when it is supported or the file is short; otherwise the
/// signature that its leading bytes match (`None`: they could not be read),
/// falling back to the extension.
pub open spec fn effective_tag(ext: Seq<char>, file_len: u64, header: Option<Seq<u8>>) -> Seq<char> {
    if is_supported_extension(ext) || file_len < MIN_SNIFF_LEN {
        ext
    } else {
        match header {
            Some(h) => match sniffed_extension(h) {
                Some(t) => t,
                None => ext,
            },
            None => ext,
        }
    }
}

pub(crate) fn text_eq(a: &str, b: &str) -> (r: bool)
    ensures
        r == (a@ == b@),
{
    a.to_owned() == b.to_owned()
}

fn is_supported(e: &str) -> (r: bool)
    ensures
        r == is_supported_extension(e@),
{
    text_eq(e, "csv") || text_eq(e, "doc") || text_eq(e, "docm") || text_eq(e, "docx")
        || text_eq(e, "eml") || text_eq(e, "jpeg") || text_eq(e, "jpg") || text_eq(e, "msg")
        || text_eq(e, "ods") || text_eq(e, "odt") || text_eq(e, "pdf") || text_eq(e, "png")
        || text_eq(e, "txt") || text_eq(e, "xlam") || text_eq(e, "xls") || text_eq(e, "xlsb")
        || text_eq(e, "xlsm") || text_eq(e, "xlsx")
}

fn starts_with_bytes(h: &[u8], sig: &[u8]) -> (r: bool)
    ensures
        r == has_prefix(h@, sig@),
{
    if sig.len() > h.len() {
        return false;
    }
    let mut i: usize = 0;
    while i < sig.len()
        invariant
            sig@.len() <= h@.len(),
            i <= sig@.len(),
            forall|k: int| 0 <= k < i ==> h@[k] == sig@[k],
        decreases sig@.len() - i,
    {
        if h[i] != sig[i] {
            assert(h@.take(sig@.len() as int)[i as int] != sig@[i as int]);
            return false;
        }
        i = i + 1;
    }
    assert(h@.take(sig@.len() as int) =~= sig@);
    true
}

/// Matches leading bytes against the signature table.
pub fn sniff_extension(h: &[u8]) -> (r: Option<String>)
    ensures
        match r {
            Some(t) => sniffed_extension(h@) == Some(t@),
            None => sniffed_extension(h@) is None,
        },
{
    let sig_7z: [u8; 6] = [0x37, 0x7A, 0xBC, 0xAF, 0x27, 0x1C];
    let sig_pdf: [u8; 5] = [0x25, 0x50, 0x44, 0x46, 0x2D];
    let sig_zip: [u8; 4] = [0x50, 0x4B, 0x03, 0x04];
    let sig_utf8: [u8; 3] = [0xEF, 0xBB, 0xBF];
    let sig_gzip: [u8; 2] = [0x1F, 0x8B];
    let sig_utf16be: [u8; 2] = [0xFE, 0xFF];
    let sig_utf16le: [u8; 2] = [0xFF, 0xFE];
    assert(sig_7z@ =~= seq![0x37u8, 0x7A, 0xBC, 0xAF, 0x27, 0x1C]);
    assert(sig_pdf@ =~= seq![0x25u8, 0x50, 0x44, 0x46, 0x2D]);
    assert(sig_zip@ =~= seq![0x50u8, 0x4B, 0x03, 0x04]);
    assert(sig_utf8@ =~= seq![0xEFu8, 0xBB, 0xBF]);
    assert(sig_gzip@ =~= seq![0x1Fu8, 0x8B]);
    assert(sig_utf16be@ =~= seq![0xFEu8, 0xFF]);
    assert(sig_utf16le@ =~= seq![0xFFu8, 0xFE]);
    if starts_with_bytes(h, sig_7z.as_slice()) {
        Some("7z".to_owned())
    } else if starts_with_bytes(h, sig_pdf.as_slice()) {
        Some("pdf".to_owned())
    } else if starts_with_bytes(h, sig_zip.as_slice()) {
        Some("zip".to_owned())
    } else if starts_with_bytes(h, sig_utf8.as_slice()) {
        Some("txt".to_owned())
    } else if starts_with_bytes(h, sig_gzip.as_slice()) {
        Some("gzip".to_owned())
    } else if starts_with_bytes(h, sig_utf16be.as_slice()) || starts_with_bytes(h, sig_utf16le.as_slice()) {
        Some("txt".to_owned())
    } else {
        None
    }
}

/// The format tag for a lower-cased extension, the file's length and its
/// leading bytes (`None` when the file could not be opened to read them).
pub fn effective_extension(ext: &str, file_len: u64, header: Option<&[u8]>) -> (r: String)
    ensures
        r@ == effective_tag(
            ext@,
            file_len,
            match header {
                Some(h) => Some(h@),
                None => None,
            },
        ),
{
    if is_supported(ext) || file_len < MIN_SNIFF_LEN {
        return ext.to_owned();
    }
    match header {
        Some(h) => match sniff_extension(h) {
            Some(t) => t,
            None => ext.to_owned(),
        },
        None => ext.to_owned(),
    }
}

/// The extension of a file name, as `extension_of` states it.
pub fn extension(name: &str) -> (r: String)
    ensures
        r@ == extension_of(name@),
{
    let n = name.unicode_len();
    let mut dot: Option<usize> = None;
    let mut i: usize = 0;
    for c in it: name.chars()
        invariant
            it.seq() == name@,
            n == name@.len(),
            i == it.index(),
            match dot {
                None => last_dot_index(name@.take(i as int)) == -1,
                Some(k) => last_dot_index(name@.take(i as int)) == k && k < i,
            },
    {
        assert(name@.take(i + 1).drop_last() =~= name@.take(i as int));
        assert(name@.take(i + 1).last() == c);
        if c == '.' {
            dot = Some(i);
        }
        i = i + 1;
    }
    assert(name@.take(n as int) =~= name@);
    match dot {
        Some(k) if k > 0 => name.substring_char(k + 1, n).to_owned(),
        _ => String::new(),
    }
}

/// The format tag of a file from its name, its length and its leading bytes:
/// the lower-cased extension when it is on the allow-list or the file is
/// under sixteen bytes, else the first signature its header matches, else
/// the extension.
pub fn get_effective_file_extension(file_name: &str, file_len: u64, header: Option<&[u8]>) -> (r: String)
    ensures
        r@ == effective_tag(
            lowercase_of(extension_of(file_name@)),
            file_len,
            match header {
                Some(h) => Some(h@),
                None => None,
            },
        ),
{
    let ext = extension(file_name);
    let lower = lowercase(ext.as_str());
    effective_extension(lower.as_str(), file_len, header)
}

} // verus!
