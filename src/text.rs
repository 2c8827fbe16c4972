//! Character-level clean-up of decoded text.
use vstd::prelude::*;

verus! {

/// Relies on `String::push`: appends one character at the end.
#[verifier::external_body]
pub(crate) fn push_char(s: &mut String, c: char)
    ensures
        final(s)@ == old(s)@.push(c),
{
    s.push(c);
}

/// The unaccented base letter of a handful of accented Latin letters; every
/// other character maps to itself.
pub open spec fn unaccented(c: char) -> char {
    if c == 'á' || c == 'à' || c == 'ã' || c == 'â' {
        'a'
    } else if c == 'é' || c == 'è' || c == 'ê' {
        'e'
    } else if c == 'í' || c == 'ì' || c == 'î' || c == 'ï' {
        'i'
    } else if c == 'ó' || c == 'ò' || c == 'õ' || c == 'ô' {
        'o'
    } else if c == 'ú' || c == 'ù' || c == 'ũ' || c == 'û' {
        'u'
    } else if c == 'ñ' {
        'n'
    } else {
        c
    }
}

/// Every character of `s` folded by `unaccented`.
pub open spec fn unaccented_text(s: Seq<char>) -> Seq<char> {
    s.map_values(|c: char| unaccented(c))
}

/// Unicode `White_Space`, the property behind `char::is_whitespace`.
pub open spec fn is_white_space(c: char) -> bool {
    let v = c as u32;
    (0x9 <= v && v <= 0xD) || v == 0x20 || v == 0x85 || v == 0xA0 || v == 0x1680 || (0x2000
        <= v && v <= 0x200A) || v == 0x2028 || v == 0x2029 || v == 0x202F || v == 0x205F || v
        == 0x3000
}

/// A printable ASCII character other than space (`char::is_ascii_graphic`).
pub open spec fn is_ascii_graphic(c: char) -> bool {
    0x21 <= (c as u32) && (c as u32) <= 0x7E
}

/// A character that survives the clean-up of extracted text.
pub open spec fn is_kept(c: char) -> bool {
    is_ascii_graphic(c) || is_white_space(c)
}

/// The characters of `s` that are kept, in order.
pub open spec fn kept_only(s: Seq<char>) -> Seq<char>
    decreases s.len(),
{
    if s.len() == 0 {
        s
    } else if is_kept(s.last()) {
        kept_only(s.drop_last()).push(s.last())
    } else {
        kept_only(s.drop_last())
    }
}

/// Whether a decoded text holds a NUL, the sign that it is left-over binary
/// data. In UTF-8 this is the one way for a NUL or a 0xFF byte to occur.
pub open spec fn looks_binary(s: Seq<char>) -> bool {
    s.contains('\0')
}

/// The clean-up applied to decoded text: accented letters are folded unless
/// the text looks binary, then everything but printable ASCII and white space
/// is dropped.
pub open spec fn cleaned_text(s: Seq<char>) -> Seq<char> {
    if looks_binary(s) {
        kept_only(s)
    } else {
        kept_only(unaccented_text(s))
    }
}

fn unaccent_char(c: char) -> (r: char)
    ensures
        r == unaccented(c),
{
    match c {
        'á' | 'à' | 'ã' | 'â' => 'a',
        'é' | 'è' | 'ê' => 'e',
        'í' | 'ì' | 'î' | 'ï' => 'i',
        'ó' | 'ò' | 'õ' | 'ô' => 'o',
        'ú' | 'ù' | 'ũ' | 'û' => 'u',
        'ñ' => 'n',
        _ => c,
    }
}

/// Folds the accented letters of `s` to their base letters.
pub fn convert_accented_manual(s: &str) -> (r: String)
    ensures
        r@ == unaccented_text(s@),
{
    let mut r = String::new();
    for c in it: s.chars()
        invariant
            it.seq() == s@,
            r@ == unaccented_text(it.seq().take(it.index() as int)),
    {
        let u = unaccent_char(c);
        proof {
            assert(it.seq().take(it.index() + 1) == it.seq().take(it.index() as int).push(c));
        }
        push_char(&mut r, u);
        assert(r@ =~= unaccented_text(it.seq().take(it.index() + 1)));
    }
    assert(s@.take(s@.len() as int) =~= s@);
    r
}

fn is_kept_char(c: char) -> (r: bool)
    ensures
        r == is_kept(c),
{
    let v = c as u32;
    (0x21 <= v && v <= 0x7E) || (0x9 <= v && v <= 0xD) || v == 0x20 || v == 0x85 || v == 0xA0
        || v == 0x1680 || (0x2000 <= v && v <= 0x200A) || v == 0x2028 || v == 0x2029 || v
        == 0x202F || v == 0x205F || v == 0x3000
}

/// Keeps printable ASCII and white space, drops every other character.
pub fn keep_printable(s: &str) -> (r: String)
    ensures
        r@ == kept_only(s@),
{
    let mut r = String::new();
    for c in it: s.chars()
        invariant
            it.seq() == s@,
            r@ == kept_only(it.seq().take(it.index() as int)),
    {
        let ghost before = it.seq().take(it.index() as int);
        proof {
            assert(it.seq().take(it.index() + 1).drop_last() =~= before);
        }
        if is_kept_char(c) {
            push_char(&mut r, c);
        }
    }
    assert(s@.take(s@.len() as int) =~= s@);
    r
}

fn has_nul(s: &str) -> (r: bool)
    ensures
        r == looks_binary(s@),
{
    for c in it: s.chars()
        invariant
            it.seq() == s@,
            !it.seq().take(it.index() as int).contains('\0'),
    {
        if c == '\0' {
            assert(s@[it.index() as int] == '\0');
            return true;
        }
        assert(it.seq().take(it.index() + 1) =~= it.seq().take(it.index() as int).push(c));
    }
    assert(s@.take(s@.len() as int) =~= s@);
    false
}

/// Cleans up text that was decoded from a leaf file: unless its bytes hold a
/// NUL character, accented letters are folded to their base letters; then only
/// printable ASCII and white space are kept.
pub fn clean_decoded_text(contents: &str) -> (r: String)
    ensures
        r@ == cleaned_text(contents@),
{
    if has_nul(contents) {
        keep_printable(contents)
    } else {
        let folded = convert_accented_manual(contents);
        keep_printable(folded.as_str())
    }
}

/// The characters that cannot stand in a file name.
pub open spec fn is_illegal_in_file_name(c: char) -> bool {
    c == '/' || c == '?' || c == '<' || c == '>' || c == '\\' || c == ':' || c == '*' || c == '|'
        || c == '"'
}

/// `s` without the characters that cannot stand in a file name.
pub open spec fn file_name_safe(s: Seq<char>) -> Seq<char>
    decreases s.len(),
{
    if s.len() == 0 {
        s
    } else if is_illegal_in_file_name(s.last()) {
        file_name_safe(s.drop_last())
    } else {
        file_name_safe(s.drop_last()).push(s.last())
    }
}

/// Drops from `s` the characters that cannot stand in a file name.
pub fn sanitize_file_name(s: &str) -> (r: String)
    ensures
        r@ == file_name_safe(s@),
{
    let mut r = String::new();
    for c in it: s.chars()
        invariant
            it.seq() == s@,
            r@ == file_name_safe(it.seq().take(it.index() as int)),
    {
        assert(it.seq().take(it.index() + 1).drop_last() =~= it.seq().take(it.index() as int));
        if !(c == '/' || c == '?' || c == '<' || c == '>' || c == '\\' || c == ':' || c == '*'
            || c == '|' || c == '"') {
            push_char(&mut r, c);
        }
    }
    assert(s@.take(s@.len() as int) =~= s@);
    r
}

} // verus!
