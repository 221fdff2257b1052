use crate::entries::{Entry, EntryHash, EntryView};
use crate::hashes::AgentPubKey;
use crate::header::{Header, HeaderKind};
use vstd::prelude::*;

verus! {

/// One accepted revision: a header together with the entry it carries.
/// Delete headers carry no entry.
#[derive(Debug)]
pub struct Record {
    pub header: Header,
    pub entry: Option<Entry>,
}

/// What a directed index edge hangs from: the hash of a well-known path
/// name, or the hash of an agent's identity. Both are discoverable by any
/// peer without coordination, so they serve as index roots.
#[derive(Debug)]
pub enum LinkBase {
    Path(String),
    Agent(AgentPubKey),
}

/// A directed, taggable edge from an index root to an entry's content hash.
#[derive(Debug)]
pub struct Link {
    pub base: LinkBase,
    pub target: EntryHash,
    pub tag: u64,
}

/// The local, append-only ledger of one agent, as this engine sees it: the
/// accepted revisions, the index edges, the path anchors already ensured,
/// the agent's own identity and the next free position in the agent's chain.
///
/// The replicated storage substrate that maintains this state in deployment
/// is an external collaborator; handing the state to each operation as an
/// explicit value lets every engine decision be verified over all of it.
#[derive(Debug)]
pub struct Ledger {
    pub author: AgentPubKey,
    pub next_seq: u64,
    pub records: Vec<Record>,
    pub links: Vec<Link>,
    pub paths: Vec<String>,
}

// --- mathematical views ---

/// Mathematical model of one accepted revision.
#[verifier::ext_equal]
pub struct RecordView {
    pub header: Header,
    pub entry: Option<EntryView>,
}

/// Mathematical model of an index root.
#[verifier::ext_equal]
pub enum LinkBaseView {
    Path(Seq<char>),
    Agent(AgentPubKey),
}

/// Mathematical model of an index edge.
#[verifier::ext_equal]
pub struct LinkView {
    pub base: LinkBaseView,
    pub target: EntryView,
    pub tag: u64,
}

/// Mathematical model of the local ledger.
#[verifier::ext_equal]
pub struct LedgerView {
    pub author: AgentPubKey,
    pub next_seq: u64,
    pub records: Seq<RecordView>,
    pub links: Seq<LinkView>,
    pub paths: Seq<Seq<char>>,
}

impl View for Record {
    type V = RecordView;

    open spec fn view(&self) -> RecordView {
        RecordView {
            header: self.header,
            entry: match self.entry {
                Some(e) => Some(e@),
                None => None,
            },
        }
    }
}

impl View for LinkBase {
    type V = LinkBaseView;

    open spec fn view(&self) -> LinkBaseView {
        match self {
            LinkBase::Path(p) => LinkBaseView::Path(p@),
            LinkBase::Agent(a) => LinkBaseView::Agent(*a),
        }
    }
}

impl View for Link {
    type V = LinkView;

    open spec fn view(&self) -> LinkView {
        LinkView { base: self.base@, target: self.target@, tag: self.tag }
    }
}

impl View for Ledger {
    type V = LedgerView;

    open spec fn view(&self) -> LedgerView {
        LedgerView {
            author: self.author,
            next_seq: self.next_seq,
            records: self.records@.map_values(|r: Record| r@),
            links: self.links@.map_values(|l: Link| l@),
            paths: self.paths@.map_values(|p: String| p@),
        }
    }
}

// --- well-formedness ---

/// Whether a header of this kind carries an entry.
pub open spec fn kind_carries_entry(k: HeaderKind) -> bool {
    match k {
        HeaderKind::Create => true,
        HeaderKind::Update { .. } => true,
        HeaderKind::Delete { .. } => false,
    }
}

/// The header an update or delete supersedes or archives, if any.
pub open spec fn ref_header(k: HeaderKind) -> Option<Header> {
    match k {
        HeaderKind::Create => None,
        HeaderKind::Update { original } => Some(*original.header),
        HeaderKind::Delete { deleted } => Some(*deleted.header),
    }
}

/// A revision's shape: create and update headers carry their entry, delete
/// headers carry none.
pub open spec fn record_shape_ok(r: RecordView) -> bool {
    match r.header.kind {
        HeaderKind::Delete { .. } => r.entry is None,
        _ => r.entry is Some,
    }
}

impl LedgerView {
    /// The invariant every reachable ledger satisfies; each operation of the
    /// engine both relies on it and preserves it.
    pub open spec fn wf(self) -> bool {
        // Every revision has its declared shape.
        &&& forall|i: int| 0 <= i < self.records.len() ==> record_shape_ok(#[trigger] self.records[i])
        // No author occupies one chain position twice, so header
        // addresses are pairwise distinct.
        &&& forall|i: int, j: int|
            0 <= i < j < self.records.len() ==> !((#[trigger] self.records[i]).header.author == (
            #[trigger] self.records[j]).header.author && self.records[i].header.seq
                == self.records[j].header.seq)
        // Every update or delete back-reference resolves to an earlier,
        // entry-carrying revision: the ledger only accepts a revision once
        // its dependencies are present.
        &&& forall|j: int|
            0 <= j < self.records.len() ==> match ref_header(
                (#[trigger] self.records[j]).header.kind,
            ) {
                Some(h) => exists|i: int|
                    0 <= i < j && (#[trigger] self.records[i]).header == h && kind_carries_entry(
                        self.records[i].header.kind,
                    ),
                None => true,
            }
        // The local author's chain positions all lie below the next free one.
        &&& forall|i: int|
            0 <= i < self.records.len() && (#[trigger] self.records[i]).header.author == self.author
                ==> self.records[i].header.seq < self.next_seq
        // Every index edge points at content some create revision carries.
        &&& forall|k: int|
            0 <= k < self.links.len() ==> exists|i: int|
                0 <= i < self.records.len() && ((#[trigger] self.records[i]).header.kind matches HeaderKind::Create)
                    && self.records[i].entry == Some((#[trigger] self.links[k]).target)
    }

    /// Distinct positions hold distinct headers.
    pub proof fn lemma_headers_distinct(self, i: int, j: int)
        requires
            self.wf(),
            0 <= i < self.records.len(),
            0 <= j < self.records.len(),
            i != j,
        ensures
            self.records[i].header != self.records[j].header,
    {
    }
}

// --- resolving headers ---

/// Looks a header up by its address: the model of the substrate's
/// get-by-hash. Returns the position of the revision whose header hashes to
/// the given address, if it is locally available.
pub fn find_record(l: &Ledger, h: &crate::header::HeaderHash) -> (r: Option<usize>)
    ensures
        match r {
            Some(i) => 0 <= i < l@.records.len() && l@.records[i as int].header == *h.header,
            None => forall|j: int| 0 <= j < l@.records.len() ==> l@.records[j].header != *h.header,
        },
{
    let n = l.records.len();
    let mut i: usize = 0;
    while i < n
        invariant
            n == l@.records.len(),
            i <= n,
            l@.records == l.records@.map_values(|r: Record| r@),
            forall|j: int| 0 <= j < i ==> l@.records[j].header != *h.header,
        decreases n - i,
    {
        if crate::header::header_eq(&l.records[i].header, &h.header) {
            return Some(i);
        }
        i += 1;
    }
    None
}

// --- path anchors ---

/// Whether the anchor for this well-known path name exists locally.
pub fn path_exists(l: &Ledger, name: &String) -> (r: bool)
    ensures
        r == l@.paths.contains(name@),
{
    let n = l.paths.len();
    let mut i: usize = 0;
    while i < n
        invariant
            n == l@.paths.len(),
            i <= n,
            l@.paths == l.paths@.map_values(|p: String| p@),
            forall|j: int| 0 <= j < i ==> l@.paths[j] != name@,
        decreases n - i,
    {
        if l.paths[i].eq(name) {
            assert(l@.paths[i as int] == name@);
            return true;
        }
        i += 1;
    }
    false
}

/// Creates the anchor for a well-known path name if it is not already there.
/// Idempotent by design, never an error: multiple peers may race to create
/// the same anchor, and a second creation must be a no-op.
pub fn ensure_path(l: &mut Ledger, name: &String)
    ensures
        final(l)@ == (LedgerView {
            paths: if old(l)@.paths.contains(name@) {
                old(l)@.paths
            } else {
                old(l)@.paths.push(name@)
            },
            ..old(l)@
        }),
{
    if !path_exists(l, name) {
        let ghost pre = l@;
        l.paths.push(name.clone());
        proof {
            assert(l@.paths =~= pre.paths.push(name@));
            assert(l@ =~= (LedgerView { paths: pre.paths.push(name@), ..pre }));
        }
    } else {
        proof {
            assert(l@ =~= (LedgerView { paths: l@.paths, ..l@ }));
        }
    }
}

} // verus!
