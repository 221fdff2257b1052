use crate::chain::{
    fetch_latest, find_first_header, first_with_header, lemma_first_with_header, spec_fetch,
};
use crate::entries::{
    clone_entry, clone_wire_element, delete_allowed, hash_entry, is_singleton, links_agent,
    path_name, spec_delete_allowed, spec_is_singleton, spec_links_agent, spec_path_name,
    spec_type_of, type_of, Entry, EntryType, EntryView, WireElement, WireElementView,
};
use crate::hashes::AgentPubKey;
use crate::header::{
    address_of, clone_header_hash, spec_address_of, Header, HeaderHash, HeaderKind,
};
use crate::ledger::{
    ensure_path, kind_carries_entry, record_shape_ok, ref_header, Ledger, LedgerView, Link,
    LinkBase, LinkBaseView, LinkView, Record, RecordView,
};
use crate::signals::{
    prepare_remote_signal, ActionType, RemoteSignal, RemoteSignalView, SignalEnvelope,
    SignalEnvelopeView, SignalInner, SignalInnerView, TransportEnvelopeView,
};
use vstd::prelude::*;

verus! {

/// The synchronous failures a caller of the engine can see. Validation
/// outcomes are a separate taxonomy: they go back to the substrate, never
/// to the caller that triggered replication.
#[derive(Clone, Copy, PartialEq, Eq, Structural, Debug)]
pub enum CrudError {
    /// A create of a singleton record type while one is already
    /// discoverable under its path.
    SingletonViolation,
    /// The referenced revision is not locally available.
    NotFound,
    /// The record type's edit policy forbids deletion.
    DeleteForbidden,
}

/// The notification emitted for one change of one record type: the domain
/// signal named after the type, wrapped for transport, addressed to the
/// given peers.
pub open spec fn spec_entry_signal(
    et: EntryType,
    action: ActionType,
    w: WireElementView,
    peers: Seq<AgentPubKey>,
) -> RemoteSignalView {
    RemoteSignalView {
        signal: TransportEnvelopeView {
            payload: SignalInnerView::Entry(
                SignalEnvelopeView { entry_type: spec_path_name(et), action, data: w },
            ),
        },
        agents: peers,
    }
}

/// The ledger after appending one revision authored locally at the next
/// free chain position.
pub open spec fn spec_after_append(lv: LedgerView, h: Header, e: Option<EntryView>) -> LedgerView {
    LedgerView {
        next_seq: (lv.next_seq + 1) as u64,
        records: lv.records.push(RecordView { header: h, entry: e }),
        ..lv
    }
}

/// The header a create writes on this ledger.
pub open spec fn spec_create_header(lv: LedgerView) -> Header {
    Header { author: lv.author, seq: lv.next_seq, kind: HeaderKind::Create }
}

/// The ledger after a successful create of `e`: the new revision, the
/// ensured path anchor, the path index edge, and — for types that track
/// per-agent ownership — the author index edge.
pub open spec fn spec_after_create(lv: LedgerView, e: EntryView) -> LedgerView {
    let h = spec_create_header(lv);
    let et = spec_type_of(e);
    let pname = spec_path_name(et);
    let links1 = lv.links.push(LinkView { base: LinkBaseView::Path(pname), target: e, tag: 0 });
    let links2 = if spec_links_agent(et) {
        links1.push(LinkView { base: LinkBaseView::Agent(lv.author), target: e, tag: 0 })
    } else {
        links1
    };
    LedgerView {
        author: lv.author,
        next_seq: (lv.next_seq + 1) as u64,
        records: lv.records.push(RecordView { header: h, entry: Some(e) }),
        links: links2,
        paths: if lv.paths.contains(pname) {
            lv.paths
        } else {
            lv.paths.push(pname)
        },
    }
}

/// The wire element a create or update returns for its new revision.
pub open spec fn spec_wire_for(h: Header, e: EntryView) -> WireElementView {
    WireElementView { entry: e, header_hash: spec_address_of(h), entry_hash: e }
}

/// Appending a locally-authored revision whose back-reference (if any)
/// resolves to an earlier entry-carrying revision preserves the ledger
/// invariant.
pub proof fn lemma_wf_after_append(lv: LedgerView, h: Header, e: Option<EntryView>)
    requires
        lv.wf(),
        lv.next_seq < u64::MAX,
        h.author == lv.author,
        h.seq == lv.next_seq,
        record_shape_ok(RecordView { header: h, entry: e }),
        match ref_header(h.kind) {
            Some(rh) => exists|i: int|
                0 <= i < lv.records.len() && (#[trigger] lv.records[i]).header == rh
                    && kind_carries_entry(lv.records[i].header.kind),
            None => true,
        },
    ensures
        spec_after_append(lv, h, e).wf(),
{
    let post = spec_after_append(lv, h, e);
    let n = lv.records.len() as int;
    assert(post.records.len() == n + 1);
    assert forall|i: int| 0 <= i < post.records.len() implies record_shape_ok(
        #[trigger] post.records[i],
    ) by {
        if i < n {
            assert(post.records[i] == lv.records[i]);
        } else {
            assert(post.records[i] == RecordView { header: h, entry: e });
        }
    }
    assert forall|i: int, j: int| 0 <= i < j < post.records.len() implies !((
    #[trigger] post.records[i]).header.author == (#[trigger] post.records[j]).header.author
        && post.records[i].header.seq == post.records[j].header.seq) by {
        if j < n {
            assert(post.records[i] == lv.records[i]);
            assert(post.records[j] == lv.records[j]);
        } else {
            assert(post.records[j] == RecordView { header: h, entry: e });
            assert(post.records[i] == lv.records[i]);
            if lv.records[i].header.author == lv.author {
                assert(lv.records[i].header.seq < lv.next_seq);
            }
        }
    }
    assert forall|j: int| 0 <= j < post.records.len() implies match ref_header(
        (#[trigger] post.records[j]).header.kind,
    ) {
        Some(rh) => exists|i: int|
            0 <= i < j && (#[trigger] post.records[i]).header == rh && kind_carries_entry(
                post.records[i].header.kind,
            ),
        None => true,
    } by {
        if j < n {
            assert(post.records[j] == lv.records[j]);
            match ref_header(lv.records[j].header.kind) {
                Some(rh) => {
                    let i = choose|i: int|
                        0 <= i < j && (#[trigger] lv.records[i]).header == rh
                            && kind_carries_entry(lv.records[i].header.kind);
                    assert(post.records[i] == lv.records[i]);
                    assert(0 <= i < j && post.records[i].header == rh && kind_carries_entry(
                        post.records[i].header.kind,
                    ));
                },
                None => {},
            }
        } else {
            assert(post.records[j] == RecordView { header: h, entry: e });
            match ref_header(h.kind) {
                Some(rh) => {
                    let i = choose|i: int|
                        0 <= i < n && (#[trigger] lv.records[i]).header == rh && kind_carries_entry(
                            lv.records[i].header.kind,
                        );
                    assert(post.records[i] == lv.records[i]);
                    assert(0 <= i < j && post.records[i].header == rh && kind_carries_entry(
                        post.records[i].header.kind,
                    ));
                },
                None => {},
            }
        }
    }
    assert forall|i: int|
        0 <= i < post.records.len() && (#[trigger] post.records[i]).header.author
            == post.author implies post.records[i].header.seq < post.next_seq by {
        if i < n {
            assert(post.records[i] == lv.records[i]);
        } else {
            assert(post.records[i] == RecordView { header: h, entry: e });
        }
    }
    assert forall|k: int| 0 <= k < post.links.len() implies exists|i: int|
        0 <= i < post.records.len() && ((#[trigger] post.records[i]).header.kind
            matches HeaderKind::Create) && post.records[i].entry == Some(
            (#[trigger] post.links[k]).target,
        ) by {
        assert(post.links[k] == lv.links[k]);
        let i = choose|i: int|
            0 <= i < lv.records.len() && ((#[trigger] lv.records[i]).header.kind
                matches HeaderKind::Create) && lv.records[i].entry == Some(lv.links[k].target);
        assert(post.records[i] == lv.records[i]);
        assert(0 <= i < post.records.len() && (post.records[i].header.kind
            matches HeaderKind::Create) && post.records[i].entry == Some(post.links[k].target));
    }
}

/// Adding an index edge whose target some create revision carries
/// preserves the ledger invariant; so does any change of the path anchors.
pub proof fn lemma_wf_after_link(lv: LedgerView, link: LinkView, paths: Seq<Seq<char>>)
    requires
        lv.wf(),
        exists|i: int|
            0 <= i < lv.records.len() && ((#[trigger] lv.records[i]).header.kind
                matches HeaderKind::Create) && lv.records[i].entry == Some(link.target),
    ensures
        (LedgerView { links: lv.links.push(link), paths, ..lv }).wf(),
{
    let post = LedgerView { links: lv.links.push(link), paths, ..lv };
    assert forall|k: int| 0 <= k < post.links.len() implies exists|i: int|
        0 <= i < post.records.len() && ((#[trigger] post.records[i]).header.kind
            matches HeaderKind::Create) && post.records[i].entry == Some(
            (#[trigger] post.links[k]).target,
        ) by {
        if k < lv.links.len() {
            assert(post.links[k] == lv.links[k]);
            let i = choose|i: int|
                0 <= i < lv.records.len() && ((#[trigger] lv.records[i]).header.kind
                    matches HeaderKind::Create) && lv.records[i].entry == Some(lv.links[k].target);
            assert(0 <= i < post.records.len() && (post.records[i].header.kind
                matches HeaderKind::Create) && post.records[i].entry == Some(post.links[k].target));
        } else {
            assert(post.links[k] == link);
            let i = choose|i: int|
                0 <= i < lv.records.len() && ((#[trigger] lv.records[i]).header.kind
                    matches HeaderKind::Create) && lv.records[i].entry == Some(link.target);
            assert(0 <= i < post.records.len() && (post.records[i].header.kind
                matches HeaderKind::Create) && post.records[i].entry == Some(post.links[k].target));
        }
    }
}

/// Writes a create revision for `entry`, indexes it under its record
/// type's path (and under the author for ownership-tracked types), and
/// prepares the change signal — unless the operation is marked imported,
/// in which case no notification is produced. Fails, changing nothing,
/// exactly when the type is a singleton and a record of it is already
/// discoverable under its path.
pub fn create_record(l: &mut Ledger, entry: Entry, imported: bool, peers: Vec<AgentPubKey>) -> (r:
    Result<(WireElement, Option<RemoteSignal>), CrudError>)
    requires
        old(l)@.wf(),
        old(l).next_seq < u64::MAX,
    ensures
        final(l)@.wf(),
        ({
            let lv = old(l)@;
            let et = spec_type_of(entry@);
            let violated = spec_is_singleton(et) && spec_fetch(
                lv.records,
                lv.links,
                LinkBaseView::Path(spec_path_name(et)),
            ).len() != 0;
            match r {
                Err(e) => violated && e == CrudError::SingletonViolation && final(l)@ == lv,
                Ok((w, sig)) => {
                    &&& !violated
                    &&& final(l)@ == spec_after_create(lv, entry@)
                    &&& w@ == spec_wire_for(spec_create_header(lv), entry@)
                    &&& (imported ==> sig is None)
                    &&& (!imported ==> match sig {
                        Some(s) => s@ == spec_entry_signal(et, ActionType::Create, w@, peers@),
                        None => false,
                    })
                },
            }
        }),
{
    let ghost pre = l@;
    let et = type_of(&entry);
    if is_singleton(et) {
        let base = LinkBase::Path(path_name(et));
        let existing = fetch_latest(l, &base);
        if existing.len() > 0 {
            proof {
                assert(existing@.map_values(|w: WireElement| w@).len() != 0);
            }
            return Err(CrudError::SingletonViolation);
        }
        proof {
            assert(existing@.map_values(|w: WireElement| w@).len() == 0);
        }
    }
    let header = Header { author: l.author, seq: l.next_seq, kind: HeaderKind::Create };
    let wire = WireElement {
        entry: clone_entry(&entry),
        header_hash: address_of(&header),
        entry_hash: hash_entry(&entry),
    };
    let target1 = hash_entry(&entry);
    let target2 = hash_entry(&entry);
    let pname = path_name(et);
    let ghost ev = entry@;
    l.records.push(Record { header, entry: Some(entry) });
    proof {
        assert(l@.records =~= pre.records.push(
            RecordView { header: spec_create_header(pre), entry: Some(ev) },
        ));
        lemma_wf_after_append(pre, spec_create_header(pre), Some(ev));
    }
    l.next_seq = l.next_seq + 1;
    proof {
        assert(l@ =~= spec_after_append(pre, spec_create_header(pre), Some(ev)));
    }
    let ghost appended = l@;
    ensure_path(l, &pname);
    let ghost pathed = l@;
    l.links.push(Link { base: LinkBase::Path(pname), target: target1, tag: 0 });
    proof {
        assert(l@.links =~= pathed.links.push(
            LinkView { base: LinkBaseView::Path(spec_path_name(et)), target: ev, tag: 0 },
        ));
        assert(appended.records[appended.records.len() - 1].entry == Some(ev));
        lemma_wf_after_link(
            pathed,
            LinkView { base: LinkBaseView::Path(spec_path_name(et)), target: ev, tag: 0 },
            pathed.paths,
        );
        assert(l@ =~= (LedgerView {
            links: pathed.links.push(
                LinkView { base: LinkBaseView::Path(spec_path_name(et)), target: ev, tag: 0 },
            ),
            paths: pathed.paths,
            ..pathed
        }));
    }
    if links_agent(et) {
        let ghost before = l@;
        let a = AgentPubKey { id: l.author.id };
        l.links.push(Link { base: LinkBase::Agent(a), target: target2, tag: 0 });
        proof {
            assert(l@.links =~= before.links.push(
                LinkView { base: LinkBaseView::Agent(pre.author), target: ev, tag: 0 },
            ));
            lemma_wf_after_link(
                before,
                LinkView { base: LinkBaseView::Agent(pre.author), target: ev, tag: 0 },
                before.paths,
            );
            assert(l@ =~= (LedgerView {
                links: before.links.push(
                    LinkView { base: LinkBaseView::Agent(pre.author), target: ev, tag: 0 },
                ),
                paths: before.paths,
                ..before
            }));
        }
    }
    proof {
        assert(l@ =~= spec_after_create(pre, ev));
        assert(wire@ =~= spec_wire_for(spec_create_header(pre), ev));
    }
    let sig = if imported {
        None
    } else {
        let env = SignalEnvelope {
            entry_type: path_name(et),
            action: ActionType::Create,
            data: clone_wire_element(&wire),
        };
        let s = prepare_remote_signal(SignalInner::Entry(env), peers);
        proof {
            assert(s@ =~= spec_entry_signal(et, ActionType::Create, wire@, peers@));
        }
        Some(s)
    };
    Ok((wire, sig))
}

/// Whether this header address resolves, locally and now, to an
/// entry-carrying revision.
pub open spec fn spec_resolvable(lv: LedgerView, h: Header) -> bool {
    let f = first_with_header(lv.records, h);
    f != -1 && kind_carries_entry(lv.records[f].header.kind)
}

/// Writes an update revision carrying `new_entry` and referencing the
/// superseded revision's header. The index is left alone: readers follow
/// the chain from the original entry's index edge to find the current
/// value. Always prepares an update signal. Fails, changing nothing,
/// exactly when the referenced header does not resolve locally to an
/// entry-carrying revision.
pub fn update_record(
    l: &mut Ledger,
    original_header_hash: &HeaderHash,
    new_entry: Entry,
    peers: Vec<AgentPubKey>,
) -> (r: Result<(WireElement, RemoteSignal), CrudError>)
    requires
        old(l)@.wf(),
        old(l).next_seq < u64::MAX,
    ensures
        final(l)@.wf(),
        ({
            let lv = old(l)@;
            let et = spec_type_of(new_entry@);
            let h = Header {
                author: lv.author,
                seq: lv.next_seq,
                kind: HeaderKind::Update { original: Box::new(*original_header_hash) },
            };
            match r {
                Err(e) => e == CrudError::NotFound && !spec_resolvable(
                    lv,
                    *original_header_hash.header,
                ) && final(l)@ == lv,
                Ok((w, sig)) => {
                    &&& spec_resolvable(lv, *original_header_hash.header)
                    &&& final(l)@ == spec_after_append(lv, h, Some(new_entry@))
                    &&& w@ == spec_wire_for(h, new_entry@)
                    &&& sig@ == spec_entry_signal(et, ActionType::Update, w@, peers@)
                },
            }
        }),
{
    let ghost pre = l@;
    let f = match find_first_header(l, &original_header_hash.header) {
        None => {
            return Err(CrudError::NotFound);
        },
        Some(f) => f,
    };
    proof {
        lemma_first_with_header(pre.records, *original_header_hash.header);
    }
    let carries = !matches!(&l.records[f].header.kind, HeaderKind::Delete { .. });
    if !carries {
        return Err(CrudError::NotFound);
    }
    let et = type_of(&new_entry);
    let header = Header {
        author: l.author,
        seq: l.next_seq,
        kind: HeaderKind::Update { original: Box::new(clone_header_hash(original_header_hash)) },
    };
    let ghost h = Header {
        author: pre.author,
        seq: pre.next_seq,
        kind: HeaderKind::Update { original: Box::new(*original_header_hash) },
    };
    let wire = WireElement {
        entry: clone_entry(&new_entry),
        header_hash: address_of(&header),
        entry_hash: hash_entry(&new_entry),
    };
    let ghost ev = new_entry@;
    l.records.push(Record { header, entry: Some(new_entry) });
    proof {
        assert(l@.records =~= pre.records.push(RecordView { header: h, entry: Some(ev) }));
        lemma_wf_after_append(pre, h, Some(ev));
    }
    l.next_seq = l.next_seq + 1;
    proof {
        assert(l@ =~= spec_after_append(pre, h, Some(ev)));
        assert(wire@ =~= spec_wire_for(h, ev));
    }
    let env = SignalEnvelope {
        entry_type: path_name(et),
        action: ActionType::Update,
        data: clone_wire_element(&wire),
    };
    let sig = prepare_remote_signal(SignalInner::Entry(env), peers);
    proof {
        assert(sig@ =~= spec_entry_signal(et, ActionType::Update, wire@, sig@.agents));
    }
    Ok((wire, sig))
}

/// The wire element a delete signal carries: the archived revision's entry
/// under the archived header's address.
pub open spec fn spec_deleted_wire(lv: LedgerView, h: HeaderHash) -> WireElementView {
    let f = first_with_header(lv.records, *h.header);
    WireElementView {
        entry: lv.records[f].entry->Some_0,
        header_hash: h,
        entry_hash: lv.records[f].entry->Some_0,
    }
}

/// Writes a delete revision archiving the referenced header. Prior
/// revisions stay: history is append-only. Returns the archived header's
/// address and prepares a delete signal. Fails, changing nothing, exactly
/// when the referenced header does not resolve locally to an entry-carrying
/// revision (`NotFound`) or the record type's policy forbids deletion
/// (`DeleteForbidden`).
pub fn delete_record(l: &mut Ledger, header_hash: &HeaderHash, peers: Vec<AgentPubKey>) -> (r:
    Result<(HeaderHash, RemoteSignal), CrudError>)
    requires
        old(l)@.wf(),
        old(l).next_seq < u64::MAX,
    ensures
        final(l)@.wf(),
        ({
            let lv = old(l)@;
            let f = first_with_header(lv.records, *header_hash.header);
            let resolvable = spec_resolvable(lv, *header_hash.header);
            let et = spec_type_of(lv.records[f].entry->Some_0);
            let h = Header {
                author: lv.author,
                seq: lv.next_seq,
                kind: HeaderKind::Delete { deleted: Box::new(*header_hash) },
            };
            match r {
                Err(e) => final(l)@ == lv && ((e == CrudError::NotFound && !resolvable) || (e
                    == CrudError::DeleteForbidden && resolvable && !spec_delete_allowed(et))),
                Ok((hh, sig)) => {
                    &&& resolvable
                    &&& spec_delete_allowed(et)
                    &&& final(l)@ == spec_after_append(lv, h, None)
                    &&& hh == *header_hash
                    &&& sig@ == spec_entry_signal(
                        et,
                        ActionType::Delete,
                        spec_deleted_wire(lv, *header_hash),
                        peers@,
                    )
                },
            }
        }),
{
    let ghost pre = l@;
    let f = match find_first_header(l, &header_hash.header) {
        None => {
            return Err(CrudError::NotFound);
        },
        Some(f) => f,
    };
    proof {
        lemma_first_with_header(pre.records, *header_hash.header);
    }
    let entry_clone = match &l.records[f].entry {
        Some(e) => clone_entry(e),
        None => {
            return Err(CrudError::NotFound);
        },
    };
    let et = type_of(&entry_clone);
    if !delete_allowed(et) {
        return Err(CrudError::DeleteForbidden);
    }
    let header = Header {
        author: l.author,
        seq: l.next_seq,
        kind: HeaderKind::Delete { deleted: Box::new(clone_header_hash(header_hash)) },
    };
    let ghost h = Header {
        author: pre.author,
        seq: pre.next_seq,
        kind: HeaderKind::Delete { deleted: Box::new(*header_hash) },
    };
    let wire = WireElement {
        entry: clone_entry(&entry_clone),
        header_hash: clone_header_hash(header_hash),
        entry_hash: hash_entry(&entry_clone),
    };
    l.records.push(Record { header, entry: None });
    proof {
        assert(l@.records =~= pre.records.push(RecordView { header: h, entry: None }));
        lemma_wf_after_append(pre, h, None);
    }
    l.next_seq = l.next_seq + 1;
    proof {
        assert(l@ =~= spec_after_append(pre, h, None));
        assert(wire@ =~= spec_deleted_wire(pre, *header_hash));
    }
    let env = SignalEnvelope {
        entry_type: path_name(et),
        action: ActionType::Delete,
        data: wire,
    };
    let sig = prepare_remote_signal(SignalInner::Entry(env), peers);
    proof {
        assert(sig@ =~= spec_entry_signal(
            et,
            ActionType::Delete,
            spec_deleted_wire(pre, *header_hash),
            sig@.agents,
        ));
    }
    Ok((clone_header_hash(header_hash), sig))
}

} // verus!
