//! Text of word-processor documents: the text runs of the main XML part of a
//! zip container, with a blank line at each paragraph.
use vstd::prelude::*;
use std::io::Read;
use quick_xml::events::Event;
use vstd::string::StringExecFns;

verus! {

#[verifier::external_type_specification]
#[verifier::external_body]
#[verifier::reject_recursive_types(R)]
pub struct ExXmlReader<R>(quick_xml::reader::Reader<R>);

/// What reading the member `name` of the zip archive `archive` gives:
/// `None` when the archive or the member cannot be read, `Some(None)` when
/// the archive has no member of that name, else the member's text.
pub uninterp spec fn zip_member_text(archive: Seq<u8>, name: Seq<char>) -> Option<Option<Seq<char>>>;

/// Relies on `zip::ZipArchive::new`, `ZipArchive::by_name` (which reports
/// `ZipError::FileNotFound` for a name it does not hold) and
/// `Read::read_to_string`: reads one member of an in-memory zip archive as
/// UTF-8 text; the outcome depends on the bytes and the name alone.
#[verifier::external_body]
fn read_zip_member(archive: &[u8], name: &str) -> (r: Option<Option<String>>)
    ensures
        match r {
            Some(Some(t)) => zip_member_text(archive@, name@) == Some(Some(t@)),
            Some(None) => zip_member_text(archive@, name@) == Some(None::<Seq<char>>),
            None => zip_member_text(archive@, name@) is None,
        },
{
    let mut zip = match zip::ZipArchive::new(std::io::Cursor::new(archive)) {
        Ok(z) => z,
        Err(_) => return None,
    };
    let mut member = match zip.by_name(name) {
        Ok(m) => m,
        Err(zip::result::ZipError::FileNotFound) => return Some(None),
        Err(_) => return None,
    };
    let mut text = String::new();
    match member.read_to_string(&mut text) {
        Ok(_) => Some(Some(text)),
        Err(_) => None,
    }
}

/// One event of an XML parse, as far as text extraction looks at it.
#[derive(Debug)]
pub enum XmlEvent {
    /// An opening tag, with its qualified name.
    Start(Vec<u8>),
    /// Character data, still escaped.
    Text(String),
    /// Any other markup.
    Other,
    /// The end of the document.
    Eof,
    /// A syntax error.
    Failed,
}

/// The events that quick-xml yields for the document `xml`, in order, up to
/// and including the first end of document or syntax error.
pub uninterp spec fn xml_event_list(xml: Seq<char>) -> Seq<XmlEvent>;

/// The events that a parser has yet to yield.
pub uninterp spec fn pending_events(reader: quick_xml::reader::Reader<&[u8]>) -> Seq<XmlEvent>;

/// Relies on `quick_xml::reader::Reader::from_str`: a parser positioned at the
/// start of `xml`, with everything it will yield still to come. With the
/// default settings (empty elements are not expanded, text events are never
/// empty) every event consumes input, so the parse of a finite document ends,
/// with the end of the document or a syntax error.
#[verifier::external_body]
fn xml_reader(xml: &str) -> (r: quick_xml::reader::Reader<&[u8]>)
    ensures
        pending_events(r) == xml_event_list(xml@),
        terminal_index(pending_events(r)) >= 0,
{
    quick_xml::reader::Reader::from_str(xml)
}

/// Relies on `quick_xml::reader::Reader::read_event`: yields the parser's next
/// event, in document order.
#[verifier::external_body]
fn next_event(reader: &mut quick_xml::reader::Reader<&[u8]>) -> (r: XmlEvent)
    ensures
        pending_events(*old(reader)).len() > 0 ==> r == pending_events(*old(reader))[0]
            && pending_events(*final(reader)) == pending_events(*old(reader)).drop_first(),
{
    match reader.read_event() {
        Ok(Event::Start(e)) => XmlEvent::Start(e.name().as_ref().as_bytes().to_vec()),
        Ok(Event::Text(e)) => XmlEvent::Text(e.into_inner().into_owned()),
        Ok(Event::Eof) => XmlEvent::Eof,
        Ok(_) => XmlEvent::Other,
        Err(_) => XmlEvent::Failed,
    }
}

/// The end of the document or a syntax error.
pub open spec fn is_terminal(e: XmlEvent) -> bool {
    e is Eof || e is Failed
}

/// The position of the first terminal event, or -1 when there is none.
pub open spec fn terminal_index(evs: Seq<XmlEvent>) -> int
    decreases evs.len(),
{
    if evs.len() == 0 {
        -1
    } else if is_terminal(evs[0]) {
        0
    } else {
        let k = terminal_index(evs.drop_first());
        if k < 0 {
            -1
        } else {
            k + 1
        }
    }
}

/// The events before the end of the document, or `None` when a syntax error
/// (or nothing) ends them.
pub open spec fn events_before_end(evs: Seq<XmlEvent>) -> Option<Seq<XmlEvent>> {
    let k = terminal_index(evs);
    if k >= 0 && evs[k] is Eof {
        Some(evs.take(k))
    } else {
        None
    }
}

proof fn lemma_terminal_index(evs: Seq<XmlEvent>)
    ensures
        -1 <= terminal_index(evs) < evs.len(),
        terminal_index(evs) >= 0 ==> is_terminal(evs[terminal_index(evs)]),
        forall|j: int|
            0 <= j < evs.len() && (terminal_index(evs) < 0 || j < terminal_index(evs))
                ==> !is_terminal(#[trigger] evs[j]),
    decreases evs.len(),
{
    if evs.len() > 0 && !is_terminal(evs[0]) {
        lemma_terminal_index(evs.drop_first());
        assert forall|j: int|
            0 <= j < evs.len() && (terminal_index(evs) < 0 || j < terminal_index(evs))
                implies !is_terminal(#[trigger] evs[j]) by {
            if j > 0 {
                assert(evs[j] == evs.drop_first()[j - 1]);
            }
        }
    }
}

proof fn lemma_terminal_at(evs: Seq<XmlEvent>, k: int)
    requires
        0 <= k < evs.len(),
        is_terminal(evs[k]),
        forall|j: int| 0 <= j < k ==> !is_terminal(#[trigger] evs[j]),
    ensures
        terminal_index(evs) == k,
    decreases k,
{
    if k > 0 {
        assert forall|j: int| 0 <= j < k - 1 implies !is_terminal(#[trigger] evs.drop_first()[j]) by {
            assert(evs.drop_first()[j] == evs[j + 1]);
        }
        lemma_terminal_at(evs.drop_first(), k - 1);
        assert(!is_terminal(evs[0]));
    }
}

/// The text gathered from a run of events, and whether the next character
/// data is to be read: an opening paragraph tag adds a blank line and arms
/// the reading, an opening run tag arms it, and character data is taken when
/// armed, which disarms it.
pub open spec fn gathered(
    events: Seq<XmlEvent>,
    paragraph: Seq<u8>,
    runs: Seq<Seq<u8>>,
) -> (Seq<char>, bool)
    decreases events.len(),
{
    if events.len() == 0 {
        (Seq::empty(), false)
    } else {
        let (text, armed) = gathered(events.drop_last(), paragraph, runs);
        match events.last() {
            XmlEvent::Start(n) => if n@ == paragraph {
                (text + "\n\n"@, true)
            } else if runs.contains(n@) {
                (text, true)
            } else {
                (text, armed)
            },
            XmlEvent::Text(t) => if armed {
                (text + t@, false)
            } else {
                (text, armed)
            },
            _ => (text, armed),
        }
    }
}

/// The bytes of each tag name.
pub open spec fn tag_views(tags: Seq<Vec<u8>>) -> Seq<Seq<u8>> {
    tags.map_values(|v: Vec<u8>| v@)
}

fn same_bytes(a: &[u8], b: &[u8]) -> (r: bool)
    ensures
        r == (a@ == b@),
{
    if a.len() != b.len() {
        return false;
    }
    let mut i: usize = 0;
    while i < a.len()
        invariant
            a@.len() == b@.len(),
            i <= a@.len(),
            forall|k: int| 0 <= k < i ==> a@[k] == b@[k],
        decreases a@.len() - i,
    {
        if a[i] != b[i] {
            return false;
        }
        i = i + 1;
    }
    assert(a@ =~= b@);
    true
}

fn is_one_of(name: &[u8], runs: &Vec<Vec<u8>>) -> (r: bool)
    ensures
        r == tag_views(runs@).contains(name@),
{
    let ghost views = tag_views(runs@);
    let mut k: usize = 0;
    while k < runs.len()
        invariant
            views == tag_views(runs@),
            k <= runs@.len(),
            forall|j: int| 0 <= j < k ==> views[j] != name@,
        decreases runs@.len() - k,
    {
        if same_bytes(runs[k].as_slice(), name) {
            assert(views[k as int] == name@);
            return true;
        }
        k = k + 1;
    }
    false
}

/// Gathers the text of a run of events (see `gathered`).
pub fn text_from_events(events: &Vec<XmlEvent>, paragraph: &[u8], runs: &Vec<Vec<u8>>) -> (r: String)
    ensures
        r@ == gathered(events@, paragraph@, tag_views(runs@)).0,
{
    let ghost views = tag_views(runs@);
    let mut text = String::new();
    let mut armed = false;
    let mut i: usize = 0;
    while i < events.len()
        invariant
            views == tag_views(runs@),
            i <= events@.len(),
            (text@, armed) == gathered(events@.take(i as int), paragraph@, views),
        decreases events@.len() - i,
    {
        assert(events@.take(i + 1).drop_last() =~= events@.take(i as int));
        match &events[i] {
            XmlEvent::Start(n) => {
                if same_bytes(n.as_slice(), paragraph) {
                    text.append("\n\n");
                    armed = true;
                } else if is_one_of(n.as_slice(), runs) {
                    armed = true;
                }
            },
            XmlEvent::Text(t) => {
                if armed {
                    text.append(t.as_str());
                    armed = false;
                }
            },
            _ => {},
        }
        i = i + 1;
    }
    assert(events@.take(events@.len() as int) =~= events@);
    text
}

/// Parses `xml` into its events, up to and not including the end of the
/// document; `None` on a syntax error.
pub fn xml_events(xml: &str) -> (r: Option<Vec<XmlEvent>>)
    ensures
        match r {
            Some(v) => events_before_end(xml_event_list(xml@)) == Some(v@),
            None => events_before_end(xml_event_list(xml@)) is None,
        },
{
    let mut reader = xml_reader(xml);
    let ghost evs = xml_event_list(xml@);
    let ghost ti = terminal_index(evs);
    proof {
        lemma_terminal_index(evs);
    }
    let mut events: Vec<XmlEvent> = Vec::new();
    let ghost mut count: int = 0;
    loop
        invariant
            evs == xml_event_list(xml@),
            ti == terminal_index(evs),
            0 <= ti < evs.len(),
            is_terminal(evs[ti]),
            forall|j: int| 0 <= j < ti ==> !is_terminal(#[trigger] evs[j]),
            0 <= count <= ti,
            pending_events(reader) == evs.skip(count),
            events@ == evs.take(count),
        decreases pending_events(reader).len(),
    {
        let event = next_event(&mut reader);
        assert(evs.skip(count)[0] == evs[count]);
        match event {
            XmlEvent::Eof => {
                return Some(events);
            },
            XmlEvent::Failed => {
                return None;
            },
            _ => {
                assert(evs.skip(count).drop_first() =~= evs.skip(count + 1));
                events.push(event);
                assert(events@ =~= evs.take(count + 1));
                proof {
                    count = count + 1;
                }
            },
        }
    }
}

/// The text of the XML part `part` of the zip container `container`: the text
/// gathered from its events, or empty when there is no such part (or it is
/// empty); `None` when the container, the part or its XML cannot be read.
pub open spec fn part_text(container: Seq<u8>, part: Seq<char>, paragraph: Seq<u8>, runs: Seq<Seq<u8>>) -> Option<Seq<char>> {
    match zip_member_text(container, part) {
        None => None,
        Some(None) => Some(Seq::empty()),
        Some(Some(xml)) => if xml.len() == 0 {
            Some(Seq::empty())
        } else {
            match events_before_end(xml_event_list(xml)) {
                Some(evs) => Some(gathered(evs, paragraph, runs).0),
                None => None,
            }
        },
    }
}

/// The text of the XML part `part` of a zip container: the character data
/// that follows an opening paragraph tag or run tag, with a blank line at
/// each paragraph (see `part_text`).
pub fn open_doc_read_data(container: &[u8], part: &str, paragraph: &[u8], runs: &Vec<Vec<u8>>) -> (r: Option<String>)
    ensures
        match r {
            Some(t) => part_text(container@, part@, paragraph@, tag_views(runs@)) == Some(t@),
            None => part_text(container@, part@, paragraph@, tag_views(runs@)) is None,
        },
{
    let xml = match read_zip_member(container, part) {
        Some(Some(x)) => x,
        Some(None) => {
            return Some(String::new());
        },
        None => {
            return None;
        },
    };
    if xml.as_str().is_empty() {
        return Some(String::new());
    }
    match xml_events(xml.as_str()) {
        Some(events) => Some(text_from_events(&events, paragraph, runs)),
        None => None,
    }
}

} // verus!
