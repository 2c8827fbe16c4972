//! The recursive decomposition engine. The walk over nested containers is
//! kept as data: a stack of files still to visit. The engine decides the
//! order of the walk, the lineage and depth of every leaf and whether its
//! text is extractable; the caller opens each container it is handed and
//! reports the files found inside.
use vstd::prelude::*;
use crate::classify::text_eq;

verus! {

/// One leaf of the decomposition: a file, how deep it sits, the display names
/// of its ancestors (outermost first) and whether its own text is extracted.
#[derive(Debug)]
pub struct SubFileItem {
    pub filepath: String,
    pub name: String,
    pub depth: usize,
    pub parent_files: Vec<String>,
    pub ok_to_extract_text: bool,
}

/// The formats that the engine tells apart.
#[derive(Clone, Copy, Debug, PartialEq, Eq, Structural)]
pub enum Format {
    SevenZip,
    Zip,
    WordDocument,
    OpenDocument,
    MimeMessage,
    CompoundMessage,
    Workbook,
    Pdf,
    Plain,
}

/// The format behind a format tag.
pub open spec fn format_of(tag: Seq<char>) -> Format {
    if tag == "7z"@ {
        Format::SevenZip
    } else if tag == "zip"@ {
        Format::Zip
    } else if tag == "docx"@ || tag == "docm"@ {
        Format::WordDocument
    } else if tag == "odt"@ {
        Format::OpenDocument
    } else if tag == "eml"@ {
        Format::MimeMessage
    } else if tag == "msg"@ {
        Format::CompoundMessage
    } else if tag == "ods"@ || tag == "xlam"@ || tag == "xls"@ || tag == "xlsb"@ || tag
        == "xlsm"@ || tag == "xlsx"@ {
        Format::Workbook
    } else if tag == "pdf"@ {
        Format::Pdf
    } else {
        Format::Plain
    }
}

/// Whether a file of this format has its own bytes run through text
/// extraction: plain files and the word-processor containers do; archives,
/// messages, workbooks and PDFs only hold what they are expanded into.
pub open spec fn extracts_own_text(f: Format) -> bool {
    f == Format::Plain || f == Format::WordDocument || f == Format::OpenDocument
}

/// The children an expansion keeps: none for a plain file.
pub open spec fn kept_children(f: Format, children: Seq<ChildFile>) -> Seq<ChildFile> {
    if f == Format::Plain {
        Seq::empty()
    } else {
        children
    }
}

/// Maps a format tag to its format.
pub fn format_for_tag(tag: &str) -> (r: Format)
    ensures
        r == format_of(tag@),
{
    if text_eq(tag, "7z") {
        Format::SevenZip
    } else if text_eq(tag, "zip") {
        Format::Zip
    } else if text_eq(tag, "docx") || text_eq(tag, "docm") {
        Format::WordDocument
    } else if text_eq(tag, "odt") {
        Format::OpenDocument
    } else if text_eq(tag, "eml") {
        Format::MimeMessage
    } else if text_eq(tag, "msg") {
        Format::CompoundMessage
    } else if text_eq(tag, "ods") || text_eq(tag, "xlam") || text_eq(tag, "xls") || text_eq(
        tag,
        "xlsb",
    ) || text_eq(tag, "xlsm") || text_eq(tag, "xlsx") {
        Format::Workbook
    } else if text_eq(tag, "pdf") {
        Format::Pdf
    } else {
        Format::Plain
    }
}

fn extracts_text(f: Format) -> (r: bool)
    ensures
        r == extracts_own_text(f),
{
    match f {
        Format::Plain | Format::WordDocument | Format::OpenDocument => true,
        _ => false,
    }
}

/// A file found inside a container. `parent` names an earlier file of the
/// same expansion that this one sits in (a message inside a message), or is
/// `None` when it sits directly in the container. A file with `expand` unset
/// is recorded as it is, without being opened (a placeholder).
#[derive(Debug)]
pub struct ChildFile {
    pub path: String,
    pub name: String,
    pub parent: Option<usize>,
    pub expand: bool,
}

/// A file waiting to be visited.
pub struct Pending {
    pub path: String,
    pub name: String,
    pub lineage: Vec<String>,
    pub expand: bool,
}

/// The lineage that a leaf's children carry: its own lineage and its name.
pub open spec fn path_of(item: SubFileItem) -> Seq<String> {
    item.parent_files@.push(item.name)
}

pub open spec fn pending_path(p: Pending) -> Seq<String> {
    p.lineage@.push(p.name)
}

/// The leaf recorded for a pending file.
pub open spec fn leaf_of(p: Pending, extractable: bool) -> SubFileItem {
    SubFileItem {
        filepath: p.path,
        name: p.name,
        depth: p.lineage.len(),
        parent_files: p.lineage,
        ok_to_extract_text: extractable,
    }
}

/// Some leaf before position `i` is the container of leaf `i`: its lineage
/// extended by its own name is the lineage of leaf `i`.
pub open spec fn has_container_before(leaves: Seq<SubFileItem>, i: int) -> bool {
    exists|j: int| 0 <= j < i && #[trigger] path_of(leaves[j]) == leaves[i].parent_files@
}

/// Every leaf's depth is the length of its lineage, and every leaf but a top
/// one comes after its container, whose lineage extended by its name is the
/// leaf's lineage.
pub open spec fn lineage_consistent(leaves: Seq<SubFileItem>) -> bool {
    forall|i: int|
        0 <= i < leaves.len() ==> {
            &&& #[trigger] leaves[i].depth == leaves[i].parent_files@.len()
            &&& leaves[i].parent_files@.len() > 0 ==> has_container_before(leaves, i)
        }
}

/// A pending file's container is already a leaf, or is pending above it (and
/// so is visited first).
pub open spec fn pending_anchored(leaves: Seq<SubFileItem>, pending: Seq<Pending>, k: int) -> bool {
    pending[k].lineage@.len() == 0 || (exists|j: int|
        0 <= j < leaves.len() && #[trigger] path_of(leaves[j]) == pending[k].lineage@) || (exists|
        m: int|
        k < m < pending.len() && #[trigger] pending_path(pending[m]) == pending[k].lineage@)
}

/// The files that a pending file's expansion puts on the stack, top first at
/// the end: the lineage of child `i` extends that of its parent child, or of
/// the container.
pub open spec fn child_lineage(
    container: Seq<String>,
    children: Seq<ChildFile>,
    i: int,
) -> Seq<String>
    decreases i,
{
    if 0 <= i < children.len() {
        match children[i].parent {
            Some(p) => if p < i {
                child_lineage(container, children, p as int).push(children[p as int].name)
            } else {
                container
            },
            None => container,
        }
    } else {
        container
    }
}

/// Whether every child's parent index points at an earlier child.
pub open spec fn parents_valid(children: Seq<ChildFile>) -> bool {
    forall|i: int|
        0 <= i < children.len() ==> match #[trigger] children[i].parent {
            Some(p) => p < i,
            None => true,
        }
}

/// The effect of visiting the placeholders on top of the stack: each becomes
/// a non-extractable leaf, until the top is a file to open or the stack is
/// empty.
pub open spec fn settled(leaves: Seq<SubFileItem>, pending: Seq<Pending>) -> (Seq<SubFileItem>, Seq<Pending>)
    decreases pending.len(),
{
    if pending.len() == 0 || pending.last().expand {
        (leaves, pending)
    } else {
        settled(leaves.push(leaf_of(pending.last(), false)), pending.drop_last())
    }
}

/// The next file that the caller is to classify and open.
#[derive(Debug)]
pub struct NodeRequest {
    pub path: String,
    pub name: String,
    pub depth: usize,
}

/// An expansion named a parent child that does not come before the child.
#[derive(Clone, Copy, Debug, PartialEq, Eq, Structural)]
pub struct MisplacedParent {
    pub child: usize,
}

/// The state of one decomposition: the leaves recorded so far, in the order
/// of the walk, and the stack of files still to visit (top at the end).
pub struct Decomposer {
    leaves: Vec<SubFileItem>,
    pending: Vec<Pending>,
}

fn clone_names(v: &Vec<String>) -> (r: Vec<String>)
    ensures
        r@ == v@,
{
    let mut r: Vec<String> = Vec::new();
    for i in 0..v.len()
        invariant
            r@ == v@.take(i as int),
    {
        r.push(v[i].clone());
        assert(r@ =~= v@.take(i + 1));
    }
    assert(v@.take(v@.len() as int) =~= v@);
    r
}

impl Decomposer {
    pub closed spec fn leaves_view(&self) -> Seq<SubFileItem> {
        self.leaves@
    }

    pub closed spec fn pending_view(&self) -> Seq<Pending> {
        self.pending@
    }

    /// The leaves are consistent and every pending file is anchored.
    pub closed spec fn wf(&self) -> bool {
        &&& lineage_consistent(self.leaves@)
        &&& forall|k: int|
            0 <= k < self.pending@.len() ==> pending_anchored(self.leaves@, self.pending@, k)
    }

    /// Starts a decomposition of one top-level file.
    pub fn new(path: String, name: String) -> (r: Self)
        ensures
            r.wf(),
            r.leaves_view().len() == 0,
            r.pending_view().len() == 1,
            r.pending_view()[0].path == path,
            r.pending_view()[0].name == name,
            r.pending_view()[0].lineage@.len() == 0,
            r.pending_view()[0].expand,
    {
        let root = Pending { path, name, lineage: Vec::new(), expand: true };
        let mut pending: Vec<Pending> = Vec::new();
        pending.push(root);
        let r = Decomposer { leaves: Vec::new(), pending };
        assert(r.pending@[0].lineage@.len() == 0);
        r
    }

    /// Whether every file has been visited.
    pub fn is_done(&self) -> (r: bool)
        ensures
            r == (self.pending_view().len() == 0),
    {
        self.pending.len() == 0
    }

    proof fn lemma_pop_to_leaf(&self, extractable: bool)
        requires
            self.wf(),
            self.pending@.len() > 0,
        ensures
            ({
                let leaves = self.leaves@.push(leaf_of(self.pending@.last(), extractable));
                let pending = self.pending@.drop_last();
                &&& lineage_consistent(leaves)
                &&& forall|k: int| 0 <= k < pending.len() ==> pending_anchored(leaves, pending, k)
            }),
    {
        let top = self.pending@.last();
        let t = self.pending@.len() - 1;
        let leaves = self.leaves@.push(leaf_of(top, extractable));
        let pending = self.pending@.drop_last();
        let n = self.leaves@.len() as int;
        assert(path_of(leaves[n]) == pending_path(top));
        assert forall|i: int| 0 <= i < leaves.len() implies {
            &&& #[trigger] leaves[i].depth == leaves[i].parent_files@.len()
            &&& leaves[i].parent_files@.len() > 0 ==> has_container_before(leaves, i)
        } by {
            if i < n {
                assert(self.leaves@[i] == leaves[i]);
                assert(self.leaves@[i].depth == self.leaves@[i].parent_files@.len());
                if leaves[i].parent_files@.len() > 0 {
                    assert(has_container_before(self.leaves@, i));
                    let j = choose|j: int|
                        0 <= j < i && #[trigger] path_of(self.leaves@[j]) == self.leaves@[i].parent_files@;
                    assert(leaves[j] == self.leaves@[j]);
                }
            } else {
                if leaves[i].parent_files@.len() > 0 {
                    assert(pending_anchored(self.leaves@, self.pending@, t));
                    let j = choose|j: int|
                        0 <= j < self.leaves@.len() && #[trigger] path_of(self.leaves@[j])
                            == self.pending@[t].lineage@;
                    assert(leaves[j] == self.leaves@[j]);
                }
            }
        }
        assert forall|k: int| 0 <= k < pending.len() implies pending_anchored(leaves, pending, k) by {
            assert(pending[k] == self.pending@[k]);
            assert(pending_anchored(self.leaves@, self.pending@, k));
            if pending[k].lineage@.len() > 0 {
                if exists|j: int|
                    0 <= j < self.leaves@.len() && #[trigger] path_of(self.leaves@[j])
                        == self.pending@[k].lineage@ {
                    let j = choose|j: int|
                        0 <= j < self.leaves@.len() && #[trigger] path_of(self.leaves@[j])
                            == self.pending@[k].lineage@;
                    assert(leaves[j] == self.leaves@[j]);
                } else {
                    let m = choose|m: int|
                        k < m < self.pending@.len() && #[trigger] pending_path(self.pending@[m])
                            == self.pending@[k].lineage@;
                    if m == t {
                        assert(path_of(leaves[n]) == pending[k].lineage@);
                    } else {
                        assert(pending[m] == self.pending@[m]);
                        assert(pending_path(pending[m]) == pending[k].lineage@);
                    }
                }
            }
        }
    }

    /// Records the placeholders on top of the stack as leaves, then hands out
    /// the next file to open, or `None` when the walk is over.
    pub fn next_node(&mut self) -> (r: Option<NodeRequest>)
        requires
            old(self).wf(),
        ensures
            final(self).wf(),
            (final(self).leaves_view(), final(self).pending_view()) == settled(
                old(self).leaves_view(),
                old(self).pending_view(),
            ),
            match r {
                None => final(self).pending_view().len() == 0,
                Some(n) => {
                    &&& final(self).pending_view().len() > 0
                    &&& final(self).pending_view().last().expand
                    &&& n.path == final(self).pending_view().last().path
                    &&& n.name == final(self).pending_view().last().name
                    &&& n.depth == final(self).pending_view().last().lineage@.len()
                },
            },
    {
        loop
            invariant
                self.wf(),
                settled(self.leaves@, self.pending@) == settled(
                    old(self).leaves@,
                    old(self).pending@,
                ),
            decreases self.pending@.len(),
        {
            let len = self.pending.len();
            if len == 0 {
                return None;
            }
            if self.pending[len - 1].expand {
                let top = &self.pending[len - 1];
                return Some(
                    NodeRequest {
                        path: top.path.clone(),
                        name: top.name.clone(),
                        depth: top.lineage.len(),
                    },
                );
            }
            proof {
                self.lemma_pop_to_leaf(false);
            }
            let p = self.pending.pop().unwrap();
            let depth = p.lineage.len();
            let leaf = SubFileItem {
                filepath: p.path,
                name: p.name,
                depth,
                parent_files: p.lineage,
                ok_to_extract_text: false,
            };
            self.leaves.push(leaf);
        }
    }

    /// Records the file on top of the stack as a leaf of the given format and
    /// puts the files found inside it on the stack, so that they are visited
    /// next, in the order given. Fails, changing nothing, when a child names a
    /// parent that does not come before it. A plain file has no children:
    /// any given for it are dropped.
    pub fn expand(&mut self, format: Format, children: Vec<ChildFile>) -> (r: Result<(), MisplacedParent>)
        requires
            old(self).wf(),
            old(self).pending_view().len() > 0,
        ensures
            final(self).wf(),
            r is Ok <==> parents_valid(kept_children(format, children@)),
            r is Err ==> *final(self) == *old(self),
            r is Ok ==> {
                let top = old(self).pending_view().last();
                let leaf = leaf_of(top, extracts_own_text(format));
                let base = old(self).pending_view().len() - 1;
                let n = kept_children(format, children@).len();
                &&& final(self).leaves_view() == old(self).leaves_view().push(leaf)
                &&& final(self).pending_view().len() == base + n
                &&& final(self).pending_view().take(base) == old(self).pending_view().drop_last()
                &&& forall|i: int|
                    0 <= i < n ==> {
                        let p = #[trigger] final(self).pending_view()[base + n - 1 - i];
                        &&& p.path == kept_children(format, children@)[i].path
                        &&& p.name == kept_children(format, children@)[i].name
                        &&& p.expand == kept_children(format, children@)[i].expand
                        &&& p.lineage@ == child_lineage(path_of(leaf), kept_children(format, children@), i)
                    }
            },
    {
        let kept = if format == Format::Plain {
            Vec::new()
        } else {
            children
        };
        assert(kept@ =~= kept_children(format, children@));
        let n = kept.len();
        let mut i: usize = 0;
        while i < n
            invariant
                *self == *old(self),
                self.wf(),
                kept@ == kept_children(format, children@),
                n == kept@.len(),
                i <= n,
                forall|q: int|
                    0 <= q < i ==> match #[trigger] kept@[q].parent {
                        Some(p) => p < q,
                        None => true,
                    },
            decreases n - i,
        {
            match kept[i].parent {
                Some(p) => {
                    if p >= i {
                        assert(self.wf());
                        return Err(MisplacedParent { child: i });
                    }
                },
                None => {},
            }
            i = i + 1;
        }
        assert(parents_valid(kept@));
        let top_index = self.pending.len() - 1;
        let extractable = extracts_text(format);
        let mut container_path = clone_names(&self.pending[top_index].lineage);
        container_path.push(self.pending[top_index].name.clone());
        let mut lineages: Vec<Vec<String>> = Vec::new();
        for i in 0..n
            invariant
                n == kept@.len(),
                parents_valid(kept@),
                lineages@.len() == i,
                forall|q: int|
                    0 <= q < i ==> (#[trigger] lineages@[q])@ == child_lineage(
                        container_path@,
                        kept@,
                        q,
                    ),
        {
            let l = match kept[i].parent {
                Some(p) => {
                    let mut l = clone_names(&lineages[p]);
                    l.push(kept[p].name.clone());
                    l
                },
                None => clone_names(&container_path),
            };
            lineages.push(l);
        }
        let ghost pre_leaves = self.leaves@;
        let ghost pre_pending = self.pending@;
        proof {
            self.lemma_pop_to_leaf(extractable);
        }
        let top = self.pending.pop().unwrap();
        let depth = top.lineage.len();
        self.leaves.push(
            SubFileItem {
                filepath: top.path,
                name: top.name,
                depth,
                parent_files: top.lineage,
                ok_to_extract_text: extractable,
            },
        );
        assert(self.leaves@ == pre_leaves.push(leaf_of(pre_pending.last(), extractable)));
        assert(self.pending@ == pre_pending.drop_last());
        let mut kept = kept;
        let ghost kids = kept@;
        let ghost mid = self.pending@;
        let ghost leaves = self.leaves@;
        assert(leaves.last().parent_files@.push(leaves.last().name) == container_path@);
        while kept.len() > 0
            invariant
                self.leaves@ == leaves,
                kept@.len() <= kids.len(),
                kept@ == kids.take(kept@.len() as int),
                lineages@.len() == kept@.len(),
                forall|q: int|
                    0 <= q < lineages@.len() ==> (#[trigger] lineages@[q])@ == child_lineage(
                        container_path@,
                        kids,
                        q,
                    ),
                self.pending@.len() == mid.len() + kids.len() - kept@.len(),
                self.pending@.take(mid.len() as int) == mid,
                forall|i: int|
                    kept@.len() <= i < kids.len() ==> {
                        let p = #[trigger] self.pending@[mid.len() + kids.len() - 1 - i];
                        &&& p.path == kids[i].path
                        &&& p.name == kids[i].name
                        &&& p.expand == kids[i].expand
                        &&& p.lineage@ == child_lineage(container_path@, kids, i)
                    },
            decreases kept@.len(),
        {
            let ghost before = kept@;
            let c = kept.pop().unwrap();
            let l = lineages.pop().unwrap();
            assert(kept@ == before.drop_last());
            self.pending.push(Pending { path: c.path, name: c.name, lineage: l, expand: c.expand });
            assert(kept@ =~= kids.take(kept@.len() as int));
            assert(self.pending@.take(mid.len() as int) =~= mid);
        }
        proof {
            let b = mid.len() as int;
            let n = kids.len() as int;
            let pend = self.pending@;
            assert forall|k: int| 0 <= k < pend.len() implies pending_anchored(leaves, pend, k) by {
                if k < b {
                    assert(pend[k] == mid[k]);
                    assert(pending_anchored(leaves, mid, k));
                    if pend[k].lineage@.len() > 0 && !(exists|j: int|
                        0 <= j < leaves.len() && #[trigger] path_of(leaves[j]) == pend[k].lineage@) {
                        let m = choose|m: int|
                            k < m < mid.len() && #[trigger] pending_path(mid[m]) == mid[k].lineage@;
                        assert(pend[m] == mid[m]);
                        assert(pending_path(pend[m]) == pend[k].lineage@);
                    }
                } else {
                    let i = b + n - 1 - k;
                    assert(k == b + n - 1 - i);
                    let pk = pend[b + n - 1 - i];
                    assert(pk.lineage@ == child_lineage(container_path@, kids, i));
                    match kids[i].parent {
                        Some(p) => {
                            if (p as int) < i {
                                let m = b + n - 1 - p;
                                let pm = pend[b + n - 1 - p];
                                assert(pm.lineage@ == child_lineage(container_path@, kids, p as int));
                                assert(pending_path(pend[m]) == pk.lineage@);
                            } else {
                                assert(path_of(leaves[leaves.len() - 1]) == pk.lineage@);
                            }
                        },
                        None => {
                            assert(path_of(leaves[leaves.len() - 1]) == pk.lineage@);
                        },
                    }
                }
            }
        }
        Ok(())
    }

    /// The leaves, in the order of the walk.
    pub fn into_leaves(self) -> (r: Vec<SubFileItem>)
        requires
            self.wf(),
        ensures
            r@ == self.leaves_view(),
            lineage_consistent(r@),
    {
        self.leaves
    }
}

} // verus!
