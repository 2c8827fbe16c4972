//! The incremental reconciler: fingerprints each leaf, skips the leaves that
//! an earlier scan already saw unchanged, and assembles the output records.
use vstd::prelude::*;
use crate::engine::SubFileItem;
use crate::documents::{extract_text_from_subfile, subfile_text, text_or_empty, SubfileText};

verus! {

/// One output record, in the shape that is persisted between scans.
#[derive(Debug, PartialEq)]
pub struct FileListItem {
    pub filename: String,
    pub parent_files: Vec<String>,
    pub crc: i64,
    pub size: i64,
    pub text_contents: Option<String>,
}

/// The CRC-64/NVME checksum of `bytes`.
pub uninterp spec fn crc64_nvme(bytes: Seq<u8>) -> u64;

/// Relies on `crc_fast::checksum` with `CrcAlgorithm::Crc64Nvme`: the
/// checksum depends on the bytes alone.
#[verifier::external_body]
fn checksum(bytes: &[u8]) -> (r: u64)
    ensures
        r == crc64_nvme(bytes@),
{
    crc_fast::checksum(crc_fast::CrcAlgorithm::Crc64Nvme, bytes)
}

/// The content fingerprint of a leaf: zero for an empty file, which is never
/// fingerprinted, else the checksum of its bytes.
pub open spec fn fingerprint_of(bytes: Seq<u8>) -> u64 {
    if bytes.len() == 0 {
        0
    } else {
        crc64_nvme(bytes)
    }
}

/// What the reconciler does with a leaf.
#[derive(Clone, Copy, Debug, PartialEq, Eq, Structural)]
pub enum LeafAction {
    /// An empty file: recorded with empty text, nothing extracted.
    Empty,
    /// Seen before with the same fingerprint: recorded without text.
    Unchanged,
    /// New or changed: its text is extracted.
    Extract,
}

/// The text of each name of a lineage.
pub open spec fn names_view(l: Seq<String>) -> Seq<Seq<char>> {
    l.map_values(|s: String| s@)
}

/// Whether an earlier record has this display name, lineage and fingerprint.
pub open spec fn seen_before(prior: Seq<FileListItem>, name: Seq<char>, lineage: Seq<Seq<char>>, crc: i64) -> bool {
    exists|k: int|
        0 <= k < prior.len() && (#[trigger] prior[k]).filename@ == name && names_view(
            prior[k].parent_files@,
        ) == lineage && prior[k].crc == crc
}

pub open spec fn action_for(
    prior: Seq<FileListItem>,
    name: String,
    lineage: Seq<String>,
    size: u64,
    crc: u64,
) -> LeafAction {
    if size == 0 {
        LeafAction::Empty
    } else if seen_before(prior, name@, names_view(lineage), crc as i64) {
        LeafAction::Unchanged
    } else {
        LeafAction::Extract
    }
}

/// The record made for a leaf of the given size and fingerprint, whose
/// extracted text (used only when the leaf is extracted) is `text`.
pub open spec fn record_fits(
    r: FileListItem,
    prior: Seq<FileListItem>,
    name: String,
    lineage: Seq<String>,
    size: u64,
    crc: u64,
    text: Seq<char>,
) -> bool {
    &&& r.filename == name
    &&& r.parent_files@ == lineage
    &&& r.size == size as i64
    &&& match action_for(prior, name, lineage, size, crc) {
        LeafAction::Empty => r.crc == 0 && (r.text_contents matches Some(t) && t@.len() == 0),
        LeafAction::Unchanged => r.crc == crc as i64 && r.text_contents is None,
        LeafAction::Extract => r.crc == crc as i64 && (r.text_contents matches Some(t) && t@
            == text),
    }
}

/// Record `i` is the record of leaf `i`, for every leaf of a run.
pub open spec fn records_fit(
    records: Seq<FileListItem>,
    prior: Seq<FileListItem>,
    leaves: Seq<SubFileItem>,
    sizes: Seq<u64>,
    crcs: Seq<u64>,
    texts: Seq<Seq<char>>,
) -> bool {
    &&& records.len() == leaves.len()
    &&& sizes.len() == leaves.len()
    &&& crcs.len() == leaves.len()
    &&& texts.len() == leaves.len()
    &&& forall|i: int|
        0 <= i < records.len() ==> record_fits(
            #[trigger] records[i],
            prior,
            leaves[i].name,
            leaves[i].parent_files@,
            sizes[i],
            crcs[i],
            texts[i],
        )
}

/// What the reconciler learnt of a leaf before any extraction.
#[derive(Clone, Copy, Debug, PartialEq, Eq, Structural)]
pub struct Assessment {
    pub size: u64,
    pub crc: u64,
    pub action: LeafAction,
}

/// What became of a leaf handed to `Reconciler::record_leaf`.
#[derive(Clone, Copy, Debug, PartialEq, Eq, Structural)]
pub enum LeafOutcome {
    Recorded,
    /// The leaf is an image to be extracted: nothing was recorded, and its
    /// text, read by optical character recognition, goes to
    /// `Reconciler::record` with this assessment.
    NeedsOcr(Assessment),
}

/// The text of an extracted leaf was not supplied.
#[derive(Clone, Copy, Debug, PartialEq, Eq, Structural)]
pub struct MissingText;

fn same_names(a: &Vec<String>, b: &Vec<String>) -> (r: bool)
    ensures
        r == (names_view(a@) == names_view(b@)),
{
    if a.len() != b.len() {
        return false;
    }
    let mut i: usize = 0;
    while i < a.len()
        invariant
            a@.len() == b@.len(),
            i <= a@.len(),
            forall|k: int| 0 <= k < i ==> a@[k]@ == b@[k]@,
        decreases a@.len() - i,
    {
        if !(a[i] == b[i]) {
            assert(names_view(a@)[i as int] != names_view(b@)[i as int]);
            return false;
        }
        i = i + 1;
    }
    assert(names_view(a@) =~= names_view(b@));
    true
}

fn clone_names(v: &Vec<String>) -> (r: Vec<String>)
    ensures
        r@ == v@,
{
    let mut r: Vec<String> = Vec::new();
    for i in 0..v.len()
        invariant
            r@ == v@.take(i as int),
    {
        r.push(v[i].clone());
        assert(r@ =~= v@.take(i + 1));
    }
    assert(v@.take(v@.len() as int) =~= v@);
    r
}

/// Whether `prior` holds a record with this display name, lineage and
/// fingerprint.
pub fn find_unchanged(prior: &Vec<FileListItem>, name: &String, lineage: &Vec<String>, crc: i64) -> (r: bool)
    ensures
        r == seen_before(prior@, name@, names_view(lineage@), crc),
{
    let mut k: usize = 0;
    while k < prior.len()
        invariant
            k <= prior@.len(),
            forall|j: int|
                0 <= j < k ==> !((#[trigger] prior@[j]).filename@ == name@ && names_view(
                    prior@[j].parent_files@,
                ) == names_view(lineage@) && prior@[j].crc == crc),
        decreases prior@.len() - k,
    {
        let p = &prior[k];
        if p.filename == *name && same_names(&p.parent_files, lineage) && p.crc == crc {
            assert(prior@[k as int].filename@ == name@);
            return true;
        }
        k = k + 1;
    }
    false
}

/// The reconciliation of one scan: the prior records it compares against,
/// and the records made so far, one per leaf, in the order the leaves came.
pub struct Reconciler {
    prior: Vec<FileListItem>,
    records: Vec<FileListItem>,
    leaves: Ghost<Seq<SubFileItem>>,
    sizes: Ghost<Seq<u64>>,
    crcs: Ghost<Seq<u64>>,
    texts: Ghost<Seq<Seq<char>>>,
}

impl Reconciler {
    pub closed spec fn prior_view(&self) -> Seq<FileListItem> {
        self.prior@
    }

    pub closed spec fn records_view(&self) -> Seq<FileListItem> {
        self.records@
    }

    /// The leaves recorded so far, with their sizes, fingerprints and the
    /// texts supplied for them.
    pub closed spec fn leaves_view(&self) -> Seq<SubFileItem> {
        self.leaves@
    }

    pub closed spec fn sizes_view(&self) -> Seq<u64> {
        self.sizes@
    }

    pub closed spec fn crcs_view(&self) -> Seq<u64> {
        self.crcs@
    }

    pub closed spec fn texts_view(&self) -> Seq<Seq<char>> {
        self.texts@
    }

    pub closed spec fn wf(&self) -> bool {
        records_fit(self.records@, self.prior@, self.leaves@, self.sizes@, self.crcs@, self.texts@)
    }

    /// Starts a reconciliation against the records of an earlier scan.
    pub fn new(prior: Vec<FileListItem>) -> (r: Self)
        ensures
            r.wf(),
            r.prior_view() == prior@,
            r.records_view().len() == 0,
    {
        Reconciler {
            prior,
            records: Vec::new(),
            leaves: Ghost(Seq::empty()),
            sizes: Ghost(Seq::empty()),
            crcs: Ghost(Seq::empty()),
            texts: Ghost(Seq::empty()),
        }
    }

    /// Sizes and fingerprints a leaf from its bytes and decides what to do
    /// with it.
    pub fn assess(&self, leaf: &SubFileItem, content: &[u8]) -> (r: Assessment)
        ensures
            r.size == content@.len(),
            r.crc == fingerprint_of(content@),
            r.action == action_for(self.prior_view(), leaf.name, leaf.parent_files@, r.size, r.crc),
    {
        let size = content.len() as u64;
        if size == 0 {
            return Assessment { size, crc: 0, action: LeafAction::Empty };
        }
        let crc = checksum(content);
        let action = if find_unchanged(&self.prior, &leaf.name, &leaf.parent_files, crc as i64) {
            LeafAction::Unchanged
        } else {
            LeafAction::Extract
        };
        Assessment { size, crc, action }
    }

    /// Records a leaf of the given size and fingerprint. `text` is the text
    /// extracted from it, needed only when the leaf is to be extracted; the
    /// call fails, recording nothing, when it is needed and missing.
    pub fn record(&mut self, leaf: &SubFileItem, size: u64, crc: u64, text: Option<String>) -> (r: Result<(), MissingText>)
        requires
            old(self).wf(),
        ensures
            final(self).wf(),
            final(self).prior_view() == old(self).prior_view(),
            r is Err <==> (action_for(old(self).prior_view(), leaf.name, leaf.parent_files@, size, crc)
                == LeafAction::Extract && text is None),
            r is Err ==> final(self).records_view() == old(self).records_view(),
            r is Ok ==> {
                &&& final(self).records_view().len() == old(self).records_view().len() + 1
                &&& final(self).records_view().drop_last() == old(self).records_view()
                &&& record_fits(
                    final(self).records_view().last(),
                    old(self).prior_view(),
                    leaf.name,
                    leaf.parent_files@,
                    size,
                    crc,
                    match text {
                        Some(t) => t@,
                        None => Seq::empty(),
                    },
                )
            },
            final(self).leaves_view() == if r is Ok {
                old(self).leaves_view().push(*leaf)
            } else {
                old(self).leaves_view()
            },
    {
        let ghost supplied = match &text {
            Some(t) => t@,
            None => Seq::<char>::empty(),
        };
        let unchanged = size != 0 && find_unchanged(&self.prior, &leaf.name, &leaf.parent_files, crc as i64);
        let (crc_field, contents): (i64, Option<String>) = if size == 0 {
            (0, Some(String::new()))
        } else if unchanged {
            (crc as i64, None)
        } else {
            match text {
                Some(t) => (crc as i64, Some(t)),
                None => {
                    return Err(MissingText);
                },
            }
        };
        let item = FileListItem {
            filename: leaf.name.clone(),
            parent_files: clone_names(&leaf.parent_files),
            crc: crc_field,
            size: size as i64,
            text_contents: contents,
        };
        self.records.push(item);
        proof {
            self.leaves@ = self.leaves@.push(*leaf);
            self.sizes@ = self.sizes@.push(size);
            self.crcs@ = self.crcs@.push(crc);
            self.texts@ = self.texts@.push(supplied);
            assert(self.records@.drop_last() =~= old(self).records@);
            assert forall|i: int| 0 <= i < self.records@.len() implies record_fits(
                #[trigger] self.records@[i],
                self.prior@,
                self.leaves@[i].name,
                self.leaves@[i].parent_files@,
                self.sizes@[i],
                self.crcs@[i],
                self.texts@[i],
            ) by {
                if i < old(self).records@.len() {
                    assert(self.records@[i] == old(self).records@[i]);
                }
            }
        }
        Ok(())
    }

    /// Sizes, fingerprints and records a leaf from its bytes, extracting its
    /// text when it is new or changed. An image to be extracted is handed
    /// back instead, unrecorded.
    pub fn record_leaf(&mut self, leaf: &SubFileItem, content: &[u8]) -> (r: LeafOutcome)
        requires
            old(self).wf(),
        ensures
            final(self).wf(),
            final(self).prior_view() == old(self).prior_view(),
            ({
                let size = content@.len() as u64;
                let crc = fingerprint_of(content@);
                let action = action_for(old(self).prior_view(), leaf.name, leaf.parent_files@, size, crc);
                &&& (r is NeedsOcr <==> action == LeafAction::Extract && subfile_text(*leaf, content@) is None)
                &&& r matches LeafOutcome::NeedsOcr(a) ==> {
                    &&& a == Assessment { size, crc, action }
                    &&& final(self).records_view() == old(self).records_view()
                    &&& final(self).leaves_view() == old(self).leaves_view()
                }
                &&& r is Recorded ==> {
                    &&& final(self).records_view().drop_last() == old(self).records_view()
                    &&& final(self).records_view().len() == old(self).records_view().len() + 1
                    &&& final(self).leaves_view() == old(self).leaves_view().push(*leaf)
                    &&& record_fits(
                        final(self).records_view().last(),
                        old(self).prior_view(),
                        leaf.name,
                        leaf.parent_files@,
                        size,
                        crc,
                        text_or_empty(subfile_text(*leaf, content@)),
                    )
                }
            }),
    {
        let a = self.assess(leaf, content);
        let text = match a.action {
            LeafAction::Extract => match extract_text_from_subfile(leaf, content) {
                SubfileText::Text(t) => Some(t),
                SubfileText::NeedsOcr => {
                    return LeafOutcome::NeedsOcr(a);
                },
            },
            _ => None,
        };
        let ghost supplied = match &text {
            Some(t) => t@,
            None => Seq::<char>::empty(),
        };
        let recorded = self.record(leaf, a.size, a.crc, text);
        assert(recorded is Ok);
        proof {
            if a.action == LeafAction::Extract {
                assert(supplied == text_or_empty(subfile_text(*leaf, content@)));
            }
        }
        LeafOutcome::Recorded
    }

    /// The records made, one per recorded leaf, in order.
    pub fn into_records(self) -> (r: Vec<FileListItem>)
        requires
            self.wf(),
        ensures
            r@ == self.records_view(),
            records_fit(
                r@,
                self.prior_view(),
                self.leaves_view(),
                self.sizes_view(),
                self.crcs_view(),
                self.texts_view(),
            ),
    {
        self.records
    }
}

/// Scanning unchanged input a second time, with the records of the first scan
/// as the prior results: the leaves carry the same names, lineages, sizes and
/// fingerprints, so every non-empty leaf is recorded without text, and every
/// record keeps the fingerprint of the first scan.
pub proof fn lemma_rescan_skips_unchanged(
    prior: Seq<FileListItem>,
    first: Seq<FileListItem>,
    leaves1: Seq<SubFileItem>,
    texts1: Seq<Seq<char>>,
    second: Seq<FileListItem>,
    leaves2: Seq<SubFileItem>,
    texts2: Seq<Seq<char>>,
    sizes: Seq<u64>,
    crcs: Seq<u64>,
)
    requires
        records_fit(first, prior, leaves1, sizes, crcs, texts1),
        records_fit(second, first, leaves2, sizes, crcs, texts2),
        leaves2.len() == leaves1.len(),
        forall|i: int|
            0 <= i < leaves1.len() ==> (#[trigger] leaves2[i]).name == leaves1[i].name
                && leaves2[i].parent_files@ == leaves1[i].parent_files@,
    ensures
        forall|i: int|
            0 <= i < second.len() ==> {
                &&& (#[trigger] second[i]).crc == first[i].crc
                &&& sizes[i] != 0 ==> second[i].text_contents is None
            },
{
    assert forall|i: int| 0 <= i < second.len() implies {
        &&& (#[trigger] second[i]).crc == first[i].crc
        &&& sizes[i] != 0 ==> second[i].text_contents is None
    } by {
        assert(record_fits(first[i], prior, leaves1[i].name, leaves1[i].parent_files@, sizes[i], crcs[i], texts1[i]));
        assert(record_fits(second[i], first, leaves2[i].name, leaves2[i].parent_files@, sizes[i], crcs[i], texts2[i]));
        assert(leaves2[i].name == leaves1[i].name);
        if sizes[i] != 0 {
            assert(first[i].filename@ == leaves2[i].name@);
            assert(names_view(first[i].parent_files@) == names_view(leaves2[i].parent_files@));
            assert(seen_before(first, leaves2[i].name@, names_view(leaves2[i].parent_files@), crcs[i] as i64));
        }
    }
}

/// The first `n` records of a scan are the records of its first `n` leaves:
/// a scan stopped after `n` leaves holds `n` records, each as the whole scan
/// would have made it.
pub proof fn lemma_stopped_scan_keeps_prefix(
    records: Seq<FileListItem>,
    prior: Seq<FileListItem>,
    leaves: Seq<SubFileItem>,
    sizes: Seq<u64>,
    crcs: Seq<u64>,
    texts: Seq<Seq<char>>,
    n: int,
)
    requires
        records_fit(records, prior, leaves, sizes, crcs, texts),
        0 <= n <= leaves.len(),
    ensures
        records.take(n).len() == n,
        records_fit(records.take(n), prior, leaves.take(n), sizes.take(n), crcs.take(n), texts.take(n)),
{
    assert forall|i: int| 0 <= i < n implies record_fits(
        #[trigger] records.take(n)[i],
        prior,
        leaves.take(n)[i].name,
        leaves.take(n)[i].parent_files@,
        sizes.take(n)[i],
        crcs.take(n)[i],
        texts.take(n)[i],
    ) by {
        assert(records.take(n)[i] == records[i]);
    }
}

} // verus!
