use crate::hashes::AgentPubKey;
use vstd::prelude::*;

verus! {

/// The operation a header records, with the back-references that chain
/// successive revisions of one logical record together.
#[derive(PartialEq, Eq, Debug)]
pub enum HeaderKind {
    /// The root of a new logical record.
    Create,
    /// Supersedes the revision whose header is `original`.
    Update { original: Box<HeaderHash> },
    /// Archives the revision whose header is `deleted`. History is
    /// append-only: a delete adds a marker, it removes nothing.
    Delete { deleted: Box<HeaderHash> },
}

/// Metadata for one write: the author's identity, the monotonically-chained
/// position of the write in the author's local history, and the operation
/// kind with its back-references.
#[derive(PartialEq, Eq, Debug)]
pub struct Header {
    pub author: AgentPubKey,
    pub seq: u64,
    pub kind: HeaderKind,
}

/// The address of a header: a deterministic, collision-free function of the
/// header's metadata, distinct from the entry's content hash.
///
/// The deployed substrate computes a cryptographic digest; the engine relies
/// only on the digest being deterministic and injective, so the model takes
/// the canonical metadata itself as the address.
#[derive(PartialEq, Eq, Debug)]
pub struct HeaderHash {
    pub header: Box<Header>,
}

/// Structural equality on headers, usable from executable code.
pub fn header_eq(a: &Header, b: &Header) -> (r: bool)
    ensures
        r == (a == b),
    decreases *a,
{
    if a.author.id != b.author.id {
        return false;
    }
    if a.seq != b.seq {
        return false;
    }
    match (&a.kind, &b.kind) {
        (HeaderKind::Create, HeaderKind::Create) => true,
        (HeaderKind::Update { original: x }, HeaderKind::Update { original: y }) => header_eq(
            &x.header,
            &y.header,
        ),
        (HeaderKind::Delete { deleted: x }, HeaderKind::Delete { deleted: y }) => header_eq(
            &x.header,
            &y.header,
        ),
        _ => false,
    }
}

/// Structural equality on header addresses.
pub fn header_hash_eq(a: &HeaderHash, b: &HeaderHash) -> (r: bool)
    ensures
        r == (a == b),
{
    header_eq(&a.header, &b.header)
}

/// An exact copy of a header.
pub fn clone_header(a: &Header) -> (r: Header)
    ensures
        r == *a,
    decreases *a,
{
    Header {
        author: a.author,
        seq: a.seq,
        kind: match &a.kind {
            HeaderKind::Create => HeaderKind::Create,
            HeaderKind::Update { original } => HeaderKind::Update {
                original: Box::new(HeaderHash { header: Box::new(clone_header(&original.header)) }),
            },
            HeaderKind::Delete { deleted } => HeaderKind::Delete {
                deleted: Box::new(HeaderHash { header: Box::new(clone_header(&deleted.header)) }),
            },
        },
    }
}

/// An exact copy of a header address.
pub fn clone_header_hash(a: &HeaderHash) -> (r: HeaderHash)
    ensures
        r == *a,
{
    HeaderHash { header: Box::new(clone_header(&a.header)) }
}

/// The address of a header.
pub open spec fn spec_address_of(h: Header) -> HeaderHash {
    HeaderHash { header: Box::new(h) }
}

/// Computes the address of a header: deterministic in the metadata alone.
pub fn address_of(h: &Header) -> (r: HeaderHash)
    ensures
        r == spec_address_of(*h),
{
    HeaderHash { header: Box::new(clone_header(h)) }
}

} // verus!
