//! Word-processor documents and the choice of a text extractor per leaf.
use vstd::prelude::*;
use crate::classify::{extension, extension_of, lowercase_of, text_eq};
use crate::docxml::{open_doc_read_data, part_text, tag_views};
use crate::encoding::{plain_text_of, read_text_from_file};
use crate::engine::SubFileItem;

verus! {

/// A document of the zip-and-XML word-processor family, opened from the
/// bytes of its container.
pub trait MsDoc: Sized {
    /// The document's text.
    spec fn doc_text(&self) -> Seq<char>;

    /// Opens a document: its text is that of `word/document.xml`; `None`
    /// when the container or that part cannot be read.
    fn open(content: &[u8]) -> (r: Option<Self>)
        ensures
            match r {
                Some(d) => docx_text(content@) == Some(d.doc_text()),
                None => docx_text(content@) is None,
            },
    ;
}

/// A document of the open-document family, opened from the bytes of its
/// container.
pub trait OpenOfficeDoc: Sized {
    /// The document's text.
    spec fn doc_text(&self) -> Seq<char>;

    /// Opens a document: its text is that of `content.xml`; `None` when the
    /// container or that part cannot be read.
    fn open(content: &[u8]) -> (r: Option<Self>)
        ensures
            match r {
                Some(d) => odt_text(content@) == Some(d.doc_text()),
                None => odt_text(content@) is None,
            },
    ;
}

/// The text of a word-processor document.
pub struct Docx {
    data: String,
}

/// The text of an open-document text document.
pub struct Odt {
    data: String,
}

/// The text of a part, or the empty text when it cannot be read.
pub open spec fn text_or_empty(t: Option<Seq<char>>) -> Seq<char> {
    match t {
        Some(x) => x,
        None => Seq::empty(),
    }
}

/// The text of a word-processor document's main part.
pub open spec fn docx_text(content: Seq<u8>) -> Option<Seq<char>> {
    part_text(content, "word/document.xml"@, word_paragraph(), seq![word_run()])
}

/// The text of an open document's content part.
pub open spec fn odt_text(content: Seq<u8>) -> Option<Seq<char>> {
    part_text(content, "content.xml"@, text_paragraph(), seq![text_paragraph(), text_span()])
}

/// The tag `w:p`.
pub open spec fn word_paragraph() -> Seq<u8> {
    seq![0x77u8, 0x3A, 0x70]
}

/// The tag `w:t`.
pub open spec fn word_run() -> Seq<u8> {
    seq![0x77u8, 0x3A, 0x74]
}

/// The tag `text:p`.
pub open spec fn text_paragraph() -> Seq<u8> {
    seq![0x74u8, 0x65, 0x78, 0x74, 0x3A, 0x70]
}

/// The tag `text:span`.
pub open spec fn text_span() -> Seq<u8> {
    seq![0x74u8, 0x65, 0x78, 0x74, 0x3A, 0x73, 0x70, 0x61, 0x6E]
}

impl Docx {
    pub closed spec fn view(&self) -> Seq<char> {
        self.data@
    }

    /// Reads the text runs of `word/document.xml`: character data after a
    /// `w:p` or `w:t` opening tag, with a blank line at each `w:p`; empty
    /// when there is no such part. `None` when the container or the part
    /// cannot be read.
    pub fn from_bytes(content: &[u8]) -> (r: Option<Docx>)
        ensures
            match r {
                Some(d) => docx_text(content@) == Some(d.view()),
                None => docx_text(content@) is None,
            },
    {
        let paragraph: Vec<u8> = vec![0x77u8, 0x3A, 0x70];
        let runs: Vec<Vec<u8>> = vec![vec![0x77u8, 0x3A, 0x74]];
        proof {
            assert(paragraph@ =~= word_paragraph());
            assert(tag_views(runs@) =~= seq![word_run()]);
        }
        match open_doc_read_data(content, "word/document.xml", paragraph.as_slice(), &runs) {
            Some(t) => Some(Docx { data: t }),
            None => None,
        }
    }

    /// The document's text.
    pub fn text(&self) -> (r: &String)
        ensures
            r@ == self.view(),
    {
        &self.data
    }
}

impl MsDoc for Docx {
    open spec fn doc_text(&self) -> Seq<char> {
        self.view()
    }

    fn open(content: &[u8]) -> (r: Option<Docx>) {
        Docx::from_bytes(content)
    }
}

impl Odt {
    pub closed spec fn view(&self) -> Seq<char> {
        self.data@
    }

    /// Reads the text of `content.xml`: character data after a `text:p` or
    /// `text:span` opening tag, with a blank line at each `text:p`; empty
    /// when there is no such part. `None` when the container or the part
    /// cannot be read.
    pub fn from_bytes(content: &[u8]) -> (r: Option<Odt>)
        ensures
            match r {
                Some(d) => odt_text(content@) == Some(d.view()),
                None => odt_text(content@) is None,
            },
    {
        let paragraph: Vec<u8> = vec![0x74u8, 0x65, 0x78, 0x74, 0x3A, 0x70];
        let runs: Vec<Vec<u8>> = vec![
            vec![0x74u8, 0x65, 0x78, 0x74, 0x3A, 0x70],
            vec![0x74u8, 0x65, 0x78, 0x74, 0x3A, 0x73, 0x70, 0x61, 0x6E],
        ];
        proof {
            assert(paragraph@ =~= text_paragraph());
            assert(tag_views(runs@) =~= seq![
                text_paragraph(),
                text_span(),
            ]);
        }
        match open_doc_read_data(content, "content.xml", paragraph.as_slice(), &runs) {
            Some(t) => Some(Odt { data: t }),
            None => None,
        }
    }

    /// The document's text.
    pub fn text(&self) -> (r: &String)
        ensures
            r@ == self.view(),
    {
        &self.data
    }
}

impl OpenOfficeDoc for Odt {
    open spec fn doc_text(&self) -> Seq<char> {
        self.view()
    }

    fn open(content: &[u8]) -> (r: Option<Odt>) {
        Odt::from_bytes(content)
    }
}

/// The extractor that a leaf goes to.
#[derive(Clone, Copy, Debug, PartialEq, Eq, Structural)]
pub enum Extractor {
    /// Not extractable: its text is empty.
    Nothing,
    WordDocument,
    OpenDocument,
    /// A raster image, read by optical character recognition.
    Image,
    /// Anything else, read as a text file.
    PlainText,
}

/// The extractor for a leaf, from its extractability and its lower-cased
/// extension.
pub open spec fn extractor_of(extractable: bool, ext: Seq<char>) -> Extractor {
    if !extractable {
        Extractor::Nothing
    } else if ext == "docx"@ || ext == "docm"@ {
        Extractor::WordDocument
    } else if ext == "odt"@ {
        Extractor::OpenDocument
    } else if ext == "jpeg"@ || ext == "jpg"@ || ext == "pgm"@ || ext == "png"@ || ext == "ppm"@ {
        Extractor::Image
    } else {
        Extractor::PlainText
    }
}

/// Picks the extractor for a leaf from its extractability and its
/// lower-cased extension.
pub fn extractor_for(extractable: bool, ext: &str) -> (r: Extractor)
    ensures
        r == extractor_of(extractable, ext@),
{
    if !extractable {
        Extractor::Nothing
    } else if text_eq(ext, "docx") || text_eq(ext, "docm") {
        Extractor::WordDocument
    } else if text_eq(ext, "odt") {
        Extractor::OpenDocument
    } else if text_eq(ext, "jpeg") || text_eq(ext, "jpg") || text_eq(ext, "pgm") || text_eq(
        ext,
        "png",
    ) || text_eq(ext, "ppm") {
        Extractor::Image
    } else {
        Extractor::PlainText
    }
}

/// The outcome of text extraction for one leaf.
#[derive(Debug)]
pub enum SubfileText {
    Text(String),
    /// The leaf is an image: its text comes from optical character
    /// recognition, which runs outside the library.
    NeedsOcr,
}

/// The text extracted from a leaf with the given bytes, or `None` for an
/// image, whose text comes from optical character recognition. Leaves that
/// are not extractable, and word-processor documents that cannot be read,
/// give empty text; everything else is decoded and cleaned up as text.
pub open spec fn subfile_text(item: SubFileItem, content: Seq<u8>) -> Option<Seq<char>> {
    match extractor_of(item.ok_to_extract_text, lowercase_of(extension_of(item.name@))) {
        Extractor::Nothing => Some(Seq::empty()),
        Extractor::WordDocument => Some(text_or_empty(docx_text(content))),
        Extractor::OpenDocument => Some(text_or_empty(odt_text(content))),
        Extractor::Image => None,
        Extractor::PlainText => Some(plain_text_of(content)),
    }
}

/// Extracts the text of one leaf from its bytes (see `subfile_text`).
pub fn extract_text_from_subfile(item: &SubFileItem, content: &[u8]) -> (r: SubfileText)
    ensures
        match r {
            SubfileText::Text(t) => subfile_text(*item, content@) == Some(t@),
            SubfileText::NeedsOcr => subfile_text(*item, content@) is None,
        },
{
    let ext = crate::classify::lowercase(extension(item.name.as_str()).as_str());
    match extractor_for(item.ok_to_extract_text, ext.as_str()) {
        Extractor::Nothing => SubfileText::Text(String::new()),
        Extractor::WordDocument => match Docx::from_bytes(content) {
            Some(d) => SubfileText::Text(d.data),
            None => SubfileText::Text(String::new()),
        },
        Extractor::OpenDocument => match Odt::from_bytes(content) {
            Some(d) => SubfileText::Text(d.data),
            None => SubfileText::Text(String::new()),
        },
        Extractor::Image => SubfileText::NeedsOcr,
        Extractor::PlainText => SubfileText::Text(read_text_from_file(content)),
    }
}

} // verus!
