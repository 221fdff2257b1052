use crate::chain::{
    better, first_create_with, first_with_header, is_chain_entry, is_current_wire,
    lemma_archived_append, lemma_fetch_membership, lemma_first_create_push,
    lemma_first_create_with, lemma_first_push, lemma_first_with_header, lemma_root_of,
    lemma_root_of_append, lemma_root_of_appended, lemma_spec_fetch_current, lemma_spec_fetch_len,
    lemma_tip, lemma_tip_append, spec_archived, spec_fetch, spec_resolve, spec_root_of, spec_tip,
    wire_of, ws_root,
};
use crate::crud::{
    lemma_wf_after_append, spec_after_append, spec_after_create, spec_create_header,
    spec_resolvable, spec_wire_for,
};
use crate::entries::{
    spec_links_agent, spec_path_name, spec_type_of, EntryType, EntryView, WireElementView,
};
use crate::goal_member::{is_matching_member, spec_archive_fold, without_matching};
use crate::header::{spec_address_of, Header, HeaderHash, HeaderKind};
use crate::ledger::{kind_carries_entry, ref_header, LedgerView, LinkBaseView, LinkView, RecordView};
use vstd::prelude::*;

verus! {

/// Appending a revision that joins some other chain leaves the resolution
/// of a target whose create revision already exists unchanged.
pub proof fn lemma_resolve_append_other(lv: LedgerView, x: RecordView, target: EntryView)
    requires
        lv.wf(),
        first_create_with(lv.records, target) != -1,
        spec_root_of(lv.records.push(x), lv.records.len() as int) != first_create_with(
            lv.records,
            target,
        ),
    ensures
        spec_resolve(lv.records.push(x), target) == spec_resolve(lv.records, target),
{
    let s = lv.records;
    let s1 = s.push(x);
    let c = first_create_with(s, target);
    lemma_first_create_with(s, target);
    lemma_first_create_push(s, x, target);
    assert(first_create_with(s1, target) == c);
    lemma_archived_append(s, x, c);
    assert(spec_archived(s1, c) == spec_archived(s, c));
    lemma_tip_append(s, x, c);
    assert(!is_chain_entry(s1, s.len() as int, c));
    assert(spec_tip(s1, c) == spec_tip(s, c));
    let t = spec_tip(s, c);
    if !spec_archived(s, c) && t != -1 {
        lemma_tip(s, c);
        assert(s1[t] == s[t]);
        assert(wire_of(s1, t) =~= wire_of(s, t));
    }
}

/// A read is unchanged by appending a revision, link by link, whenever
/// each edge's target resolves the same before and after.
pub proof fn lemma_fetch_append_frame(
    lv: LedgerView,
    x: RecordView,
    links: Seq<LinkView>,
    base: LinkBaseView,
)
    requires
        forall|k: int|
            0 <= k < links.len() ==> spec_resolve(lv.records.push(x), (#[trigger] links[k]).target)
                == spec_resolve(lv.records, links[k].target),
    ensures
        spec_fetch(lv.records.push(x), links, base) == spec_fetch(lv.records, links, base),
    decreases links.len(),
{
    if links.len() > 0 {
        assert(forall|k: int| 0 <= k < links.len() - 1 ==> links.drop_last()[k] == links[k]);
        lemma_fetch_append_frame(lv, x, links.drop_last(), base);
        assert(links.last() == links[links.len() - 1]);
    }
}

/// No chain of a ledger is rooted past its end, so a revision yet to be
/// appended belongs to no existing chain and is archived by nothing.
pub proof fn lemma_no_root_at_end(lv: LedgerView)
    requires
        lv.wf(),
    ensures
        spec_tip(lv.records, lv.records.len() as int) == -1,
        !spec_archived(lv.records, lv.records.len() as int),
    decreases lv.records.len(),
{
    let m = lv.records.len() as int;
    assert forall|i: int| 0 <= i < m implies spec_root_of(lv.records, i) != m by {
        lemma_root_of(lv, i);
    }
    lemma_tip(lv.records, m);
    if spec_tip(lv.records, m) != -1 {
        assert(is_chain_entry(lv.records, spec_tip(lv.records, m), m));
        assert(false);
    }
}

/// Create-then-read: creating an entry whose content no local revision
/// carries yet, and then reading the record type's index root, returns
/// exactly the reads of before with the created element appended at the
/// end.
pub proof fn lemma_create_then_fetch(lv: LedgerView, e: EntryView)
    requires
        lv.wf(),
        lv.next_seq < u64::MAX,
        forall|i: int| 0 <= i < lv.records.len() ==> (#[trigger] lv.records[i]).entry != Some(e),
    ensures
        ({
            let base = LinkBaseView::Path(spec_path_name(spec_type_of(e)));
            let post = spec_after_create(lv, e);
            spec_fetch(post.records, post.links, base) == spec_fetch(
                lv.records,
                lv.links,
                base,
            ).push(spec_wire_for(spec_create_header(lv), e))
        }),
{
    let base = LinkBaseView::Path(spec_path_name(spec_type_of(e)));
    let post = spec_after_create(lv, e);
    let ch = spec_create_header(lv);
    let x = RecordView { header: ch, entry: Some(e) };
    let s = lv.records;
    let s1 = s.push(x);
    let m = s.len() as int;
    // The created entry's content is new: its create revision stands at the
    // end, rooted at itself.
    lemma_first_create_with(s, e);
    if first_create_with(s, e) != -1 {
        assert(s[first_create_with(s, e)].entry == Some(e));
        assert(false);
    }
    lemma_first_create_push(s, x, e);
    assert(first_create_with(s1, e) == m);
    assert(spec_root_of(s1, m) == m);
    // Nothing archives it, and it is its own chain's tip.
    lemma_no_root_at_end(lv);
    lemma_archived_append(s, x, m);
    assert(!spec_archived(s1, m));
    lemma_tip_append(s, x, m);
    assert(is_chain_entry(s1, m, m));
    assert(spec_tip(s1, m) == m);
    assert(wire_of(s1, m) =~= spec_wire_for(ch, e));
    assert(spec_resolve(s1, e) == Some(spec_wire_for(ch, e)));
    // Existing edges resolve as before: their chains are rooted strictly
    // earlier.
    assert forall|k: int| 0 <= k < lv.links.len() implies spec_resolve(
        s1,
        (#[trigger] lv.links[k]).target,
    ) == spec_resolve(s, lv.links[k].target) by {
        let i = choose|i: int|
            0 <= i < s.len() && ((#[trigger] s[i]).header.kind matches HeaderKind::Create)
                && s[i].entry == Some(lv.links[k].target);
        lemma_first_create_with(s, lv.links[k].target);
        if first_create_with(s, lv.links[k].target) == -1 {
            assert(s[i].entry != Some(lv.links[k].target));
            assert(false);
        }
        assert(first_create_with(s, lv.links[k].target) < m);
        lemma_resolve_append_other(lv, x, lv.links[k].target);
    }
    lemma_fetch_append_frame(lv, x, lv.links, base);
    // The read of the new state: the path edge appends the created element;
    // the author edge, when the type tracks ownership, hangs under another
    // root and adds nothing here.
    let pl = LinkView { base, target: e, tag: 0 };
    let links1 = lv.links.push(pl);
    assert(links1.drop_last() =~= lv.links);
    assert(spec_fetch(s1, links1, base) == spec_fetch(s1, lv.links, base).push(
        spec_wire_for(ch, e),
    ));
    if spec_links_agent(spec_type_of(e)) {
        let al = LinkView { base: LinkBaseView::Agent(lv.author), target: e, tag: 0 };
        assert(post.links == links1.push(al));
        assert(links1.push(al).drop_last() =~= links1);
        assert(links1.push(al).last() == al);
        assert(al.base != base);
        assert(spec_fetch(s1, links1.push(al), base) == spec_fetch(s1, links1, base));
    } else {
        assert(post.links == links1);
    }
}

/// History is append-only and immutable: every operation — a delete as
/// much as a create or an update — adds exactly one revision at the end
/// and leaves every previously accepted revision in place, unchanged, at
/// its old position.
pub proof fn lemma_history_append_only(lv: LedgerView, h: Header, e: Option<EntryView>)
    ensures
        spec_after_append(lv, h, e).records.len() == lv.records.len() + 1,
        forall|i: int|
            0 <= i < lv.records.len() ==> #[trigger] spec_after_append(lv, h, e).records[i]
                == lv.records[i],
{
}

/// The tie-break order is total across the revisions that can coexist in
/// one well-formed ledger: of two distinct revisions, one always beats the
/// other, because no author ever occupies one chain position twice. Two
/// peers reconciling the same divergent chains therefore select the same
/// tip, deterministically, with no coordination.
pub proof fn lemma_tie_break_total(lv: LedgerView, i: int, j: int)
    requires
        lv.wf(),
        0 <= i < lv.records.len(),
        0 <= j < lv.records.len(),
        i != j,
    ensures
        better(lv.records[i].header, lv.records[j].header) || better(
            lv.records[j].header,
            lv.records[i].header,
        ),
{
}

/// A created record is at once discoverable under its type's path: in
/// particular, after one singleton create succeeds, the path is occupied,
/// and the engine then refuses a second create of that singleton type.
pub proof fn lemma_created_record_is_discoverable(lv: LedgerView, e: EntryView)
    requires
        lv.wf(),
        lv.next_seq < u64::MAX,
        forall|i: int| 0 <= i < lv.records.len() ==> (#[trigger] lv.records[i]).entry != Some(e),
    ensures
        ({
            let base = LinkBaseView::Path(spec_path_name(spec_type_of(e)));
            let post = spec_after_create(lv, e);
            spec_fetch(post.records, post.links, base).len() > 0
        }),
{
    lemma_create_then_fetch(lv, e);
}

/// Update-then-read: updating a discoverable, unarchived record through
/// any resolvable revision of its chain moves the chain's current value to
/// the new entry — the same logical record, reached through its unchanged
/// index edge, now reads as the update's wire element — provided no
/// concurrent revision of that chain sits at a chain position the local
/// author has not reached.
pub proof fn lemma_update_then_fetch(
    lv: LedgerView,
    ohh: HeaderHash,
    e2: EntryView,
    target: EntryView,
)
    requires
        lv.wf(),
        lv.next_seq < u64::MAX,
        first_create_with(lv.records, target) != -1,
        !spec_archived(lv.records, first_create_with(lv.records, target)),
        spec_resolvable(lv, *ohh.header),
        spec_root_of(lv.records, first_with_header(lv.records, *ohh.header))
            == first_create_with(lv.records, target),
        forall|i: int|
            is_chain_entry(lv.records, i, first_create_with(lv.records, target))
                ==> (#[trigger] lv.records[i]).header.seq < lv.next_seq,
    ensures
        ({
            let h = Header {
                author: lv.author,
                seq: lv.next_seq,
                kind: HeaderKind::Update { original: Box::new(ohh) },
            };
            let post = spec_after_append(lv, h, Some(e2));
            &&& post.links == lv.links
            &&& spec_resolve(post.records, target) == Some(
                WireElementView { entry: e2, header_hash: spec_address_of(h), entry_hash: e2 },
            )
        }),
{
    let h = Header {
        author: lv.author,
        seq: lv.next_seq,
        kind: HeaderKind::Update { original: Box::new(ohh) },
    };
    let x = RecordView { header: h, entry: Some(e2) };
    let s = lv.records;
    let s1 = s.push(x);
    let m = s.len() as int;
    let c = first_create_with(s, target);
    let f = first_with_header(s, *ohh.header);
    lemma_first_with_header(s, *ohh.header);
    lemma_first_create_with(s, target);
    // The new revision joins the chain rooted at the target's create.
    lemma_root_of_appended(s, x, f);
    assert(spec_root_of(s1, m) == c);
    lemma_first_create_push(s, x, target);
    assert(first_create_with(s1, target) == c);
    lemma_archived_append(s, x, c);
    assert(!spec_archived(s1, c));
    // It beats every existing candidate of that chain, so it is the tip.
    lemma_tip_append(s, x, c);
    assert(is_chain_entry(s1, m, c));
    let prev = spec_tip(s, c);
    if prev != -1 {
        lemma_tip(s, c);
        assert(is_chain_entry(s, prev, c));
        assert(s[prev].header.seq < lv.next_seq);
        assert(better(x.header, s[prev].header));
    }
    assert(spec_tip(s1, c) == m);
    assert(wire_of(s1, m) =~= (WireElementView {
        entry: e2,
        header_hash: spec_address_of(h),
        entry_hash: e2,
    }));
}

/// The read after an update: when the updated record's create is linked
/// under the read root, the read of the post-update ledger contains the
/// update's wire element — the record is still reached through its old,
/// unchanged index edge, and now reads as the new content.
pub proof fn lemma_update_then_fetch_contains(
    lv: LedgerView,
    ohh: HeaderHash,
    e2: EntryView,
    target: EntryView,
    base: LinkBaseView,
    k: int,
)
    requires
        lv.wf(),
        lv.next_seq < u64::MAX,
        first_create_with(lv.records, target) != -1,
        !spec_archived(lv.records, first_create_with(lv.records, target)),
        spec_resolvable(lv, *ohh.header),
        spec_root_of(lv.records, first_with_header(lv.records, *ohh.header))
            == first_create_with(lv.records, target),
        forall|i: int|
            is_chain_entry(lv.records, i, first_create_with(lv.records, target))
                ==> (#[trigger] lv.records[i]).header.seq < lv.next_seq,
        0 <= k < lv.links.len(),
        lv.links[k].base == base,
        lv.links[k].target == target,
    ensures
        ({
            let h = Header {
                author: lv.author,
                seq: lv.next_seq,
                kind: HeaderKind::Update { original: Box::new(ohh) },
            };
            let post = spec_after_append(lv, h, Some(e2));
            let w = WireElementView { entry: e2, header_hash: spec_address_of(h), entry_hash: e2 };
            exists|j: int|
                0 <= j < spec_fetch(post.records, post.links, base).len() && #[trigger] spec_fetch(
                    post.records,
                    post.links,
                    base,
                )[j] == w
        }),
{
    lemma_update_then_fetch(lv, ohh, e2, target);
    let h = Header {
        author: lv.author,
        seq: lv.next_seq,
        kind: HeaderKind::Update { original: Box::new(ohh) },
    };
    let post = spec_after_append(lv, h, Some(e2));
    assert(post.links[k] == lv.links[k]);
    lemma_fetch_membership(post.records, post.links, base, k);
}

/// What archiving a fetched set does to the ledger: the invariant holds
/// on, the index is untouched, every prior revision keeps its chain, no
/// chain's tip moves — delete markers carry no entry — and exactly the
/// chains of the matching elements become archived on top of those that
/// already were.
#[verifier::rlimit(100)]
pub proof fn lemma_fold_effect(lv: LedgerView, ws: Seq<WireElementView>, addr: HeaderHash)
    requires
        lv.wf(),
        lv.next_seq + ws.len() <= u64::MAX,
        forall|j: int| 0 <= j < ws.len() ==> is_current_wire(lv, #[trigger] ws[j]),
    ensures
        ({
            let post = spec_archive_fold(lv, ws, addr);
            &&& post.wf()
            &&& post.author == lv.author
            &&& post.links == lv.links
            &&& post.paths == lv.paths
            &&& lv.next_seq <= post.next_seq <= lv.next_seq + ws.len()
            &&& lv.records.is_prefix_of(post.records)
            &&& forall|t2: EntryView| #[trigger]
                first_create_with(post.records, t2) == first_create_with(lv.records, t2)
            &&& forall|h2: Header|
                first_with_header(lv.records, h2) != -1 ==> #[trigger] first_with_header(
                    post.records,
                    h2,
                ) == first_with_header(lv.records, h2)
            &&& forall|c: int| #[trigger] spec_tip(post.records, c) == spec_tip(lv.records, c)
            &&& forall|i: int|
                0 <= i < lv.records.len() ==> #[trigger] spec_root_of(post.records, i)
                    == spec_root_of(lv.records, i)
            &&& forall|c: int| #[trigger]
                spec_archived(post.records, c) <==> (spec_archived(lv.records, c) || exists|j: int|
                    0 <= j < ws.len() && is_matching_member(#[trigger] ws[j], addr) && ws_root(
                        lv,
                        ws[j],
                    ) == c)
        }),
    decreases ws.len(),
{
    if ws.len() == 0 {
        let post = spec_archive_fold(lv, ws, addr);
        assert(post == lv);
        assert(lv.records.subrange(0, lv.records.len() as int) =~= lv.records);
        assert(lv.records.is_prefix_of(lv.records));
    } else {
        let prev_ws = ws.drop_last();
        assert(forall|j: int| 0 <= j < prev_ws.len() ==> prev_ws[j] == ws[j]);
        lemma_fold_effect(lv, prev_ws, addr);
        let mid = spec_archive_fold(lv, prev_ws, addr);
        let w = ws.last();
        let post = spec_archive_fold(lv, ws, addr);
        if is_matching_member(w, addr) {
            let h = Header {
                author: mid.author,
                seq: mid.next_seq,
                kind: HeaderKind::Delete { deleted: Box::new(w.header_hash) },
            };
            let x = RecordView { header: h, entry: None };
            assert(post == spec_after_append(mid, h, None));
            assert(post.records == mid.records.push(x));
            // Locate the revision the delete archives: the tip of the
            // matching element's chain, still present unchanged.
            assert(is_current_wire(lv, w));
            let r = ws_root(lv, w);
            let t = spec_tip(lv.records, r);
            lemma_tip(lv.records, r);
            assert(is_chain_entry(lv.records, t, r));
            let hstar = lv.records[t].header;
            assert(*w.header_hash.header == hstar);
            lemma_first_with_header(lv.records, hstar);
            let fstar = first_with_header(lv.records, hstar);
            assert(fstar != -1);
            if fstar != t {
                lv.lemma_headers_distinct(fstar, t);
            }
            assert(fstar == t);
            assert(first_with_header(mid.records, hstar) == t);
            assert(lv.records[t] == mid.records.subrange(0, lv.records.len() as int)[t]);
            assert(mid.records[t] == lv.records[t]);
            assert(ref_header(h.kind) == Some(hstar));
            lemma_wf_after_append(mid, h, None);
            assert(post.wf());
            // The ledger grows by one delete marker at the end.
            assert(lv.records.subrange(0, lv.records.len() as int) =~= post.records.subrange(
                0,
                lv.records.len() as int,
            ));
            assert(lv.records.is_prefix_of(post.records));
            assert forall|t2: EntryView| #[trigger]
                first_create_with(post.records, t2) == first_create_with(lv.records, t2) by {
                lemma_first_create_push(mid.records, x, t2);
            }
            assert forall|h2: Header|
                first_with_header(lv.records, h2) != -1 implies #[trigger] first_with_header(
                post.records,
                h2,
            ) == first_with_header(lv.records, h2) by {
                lemma_first_push(mid.records, x, h2);
            }
            assert forall|i: int|
                0 <= i < lv.records.len() implies #[trigger] spec_root_of(post.records, i)
                == spec_root_of(lv.records, i) by {
                lemma_root_of_append(mid.records, x, i);
            }
            // The delete joins exactly the matching element's chain.
            lemma_root_of_appended(mid.records, x, t);
            assert(spec_root_of(post.records, mid.records.len() as int) == spec_root_of(
                mid.records,
                t,
            ));
            assert(spec_root_of(mid.records, t) == spec_root_of(lv.records, t));
            assert(spec_root_of(post.records, mid.records.len() as int) == r);
            // No tip moves: a delete marker is never a candidate.
            assert forall|c: int| #[trigger]
                spec_tip(post.records, c) == spec_tip(lv.records, c) by {
                lemma_tip_append(mid.records, x, c);
                assert(!kind_carries_entry(x.header.kind));
                assert(!is_chain_entry(post.records, mid.records.len() as int, c));
            }
            // Archival: the old archived chains, plus this one.
            assert forall|c: int| #[trigger]
                spec_archived(post.records, c) <==> (spec_archived(lv.records, c) || exists|j: int|
                    0 <= j < ws.len() && is_matching_member(#[trigger] ws[j], addr) && ws_root(
                        lv,
                        ws[j],
                    ) == c) by {
                lemma_archived_append(mid.records, x, c);
                if spec_archived(post.records, c) {
                    if spec_archived(mid.records, c) {
                        if !spec_archived(lv.records, c) {
                            let j = choose|j: int|
                                0 <= j < prev_ws.len() && is_matching_member(
                                    #[trigger] prev_ws[j],
                                    addr,
                                ) && ws_root(lv, prev_ws[j]) == c;
                            assert(ws[j] == prev_ws[j]);
                            assert(0 <= j < ws.len() && is_matching_member(ws[j], addr) && ws_root(
                                lv,
                                ws[j],
                            ) == c);
                        }
                    } else {
                        assert(spec_root_of(post.records, mid.records.len() as int) == c);
                        assert(c == r);
                        let j = ws.len() - 1;
                        assert(0 <= j < ws.len() && is_matching_member(ws[j as int], addr)
                            && ws_root(lv, ws[j as int]) == c);
                    }
                }
                if spec_archived(lv.records, c) {
                    assert(spec_archived(mid.records, c));
                }
                if exists|j: int|
                    0 <= j < ws.len() && is_matching_member(#[trigger] ws[j], addr) && ws_root(
                        lv,
                        ws[j],
                    ) == c {
                    let j = choose|j: int|
                        0 <= j < ws.len() && is_matching_member(#[trigger] ws[j], addr) && ws_root(
                            lv,
                            ws[j],
                        ) == c;
                    if j < ws.len() - 1 {
                        assert(prev_ws[j] == ws[j]);
                        assert(spec_archived(mid.records, c));
                        assert(spec_archived(post.records, c));
                    } else {
                        assert(c == r);
                        assert(spec_archived(post.records, c));
                    }
                }
            }
        } else {
            assert(post == mid);
            assert forall|c: int| #[trigger]
                spec_archived(post.records, c) <==> (spec_archived(lv.records, c) || exists|j: int|
                    0 <= j < ws.len() && is_matching_member(#[trigger] ws[j], addr) && ws_root(
                        lv,
                        ws[j],
                    ) == c) by {
                if spec_archived(post.records, c) && !spec_archived(lv.records, c) {
                    let j = choose|j: int|
                        0 <= j < prev_ws.len() && is_matching_member(#[trigger] prev_ws[j], addr)
                            && ws_root(lv, prev_ws[j]) == c;
                    assert(ws[j] == prev_ws[j]);
                    assert(0 <= j < ws.len() && is_matching_member(ws[j], addr) && ws_root(
                        lv,
                        ws[j],
                    ) == c);
                }
                if exists|j: int|
                    0 <= j < ws.len() && is_matching_member(#[trigger] ws[j], addr) && ws_root(
                        lv,
                        ws[j],
                    ) == c {
                    let j = choose|j: int|
                        0 <= j < ws.len() && is_matching_member(#[trigger] ws[j], addr) && ws_root(
                            lv,
                            ws[j],
                        ) == c;
                    assert(j != ws.len() - 1);
                    assert(prev_ws[j] == ws[j]);
                    assert(spec_archived(mid.records, c));
                }
            }
        }
    }
}

/// One step of the read comparison: the reads of the post-archive ledger
/// over the first `n` index edges are the reads of before with the
/// matching elements left out.
proof fn lemma_archive_fetch_prefix(
    lv: LedgerView,
    ws: Seq<WireElementView>,
    addr: HeaderHash,
    post: LedgerView,
    base: LinkBaseView,
    n: int,
)
    requires
        lv.wf(),
        ws == spec_fetch(lv.records, lv.links, base),
        lv.records.is_prefix_of(post.records),
        forall|t2: EntryView| #[trigger]
            first_create_with(post.records, t2) == first_create_with(lv.records, t2),
        forall|c: int| #[trigger] spec_tip(post.records, c) == spec_tip(lv.records, c),
        forall|c: int| #[trigger]
            spec_archived(post.records, c) <==> (spec_archived(lv.records, c) || exists|j: int|
                0 <= j < ws.len() && is_matching_member(#[trigger] ws[j], addr) && ws_root(
                    lv,
                    ws[j],
                ) == c),
        0 <= n <= lv.links.len(),
    ensures
        spec_fetch(post.records, lv.links.take(n), base) == without_matching(
            spec_fetch(lv.records, lv.links.take(n), base),
            addr,
        ),
    decreases n,
{
    if n == 0 {
        assert(lv.links.take(0) =~= Seq::<LinkView>::empty());
    } else {
        lemma_archive_fetch_prefix(lv, ws, addr, post, base, n - 1);
        let lp = lv.links.take(n);
        assert(lp.drop_last() =~= lv.links.take(n - 1));
        assert(lp.last() == lv.links[n - 1]);
        let lk = lv.links[n - 1];
        let prev_old = spec_fetch(lv.records, lv.links.take(n - 1), base);
        let prev_new = spec_fetch(post.records, lv.links.take(n - 1), base);
        if lk.base == base {
            let target = lk.target;
            let c = first_create_with(lv.records, target);
            match spec_resolve(lv.records, target) {
                Some(w) => {
                    let t = spec_tip(lv.records, c);
                    assert(c != -1 && !spec_archived(lv.records, c) && t != -1);
                    assert(w == wire_of(lv.records, t));
                    lemma_tip(lv.records, c);
                    assert(is_chain_entry(lv.records, t, c));
                    let hstar = lv.records[t].header;
                    assert(*w.header_hash.header == hstar);
                    lemma_first_with_header(lv.records, hstar);
                    let fstar = first_with_header(lv.records, hstar);
                    assert(fstar != -1);
                    if fstar != t {
                        lv.lemma_headers_distinct(fstar, t);
                    }
                    assert(ws_root(lv, w) == c);
                    if is_matching_member(w, addr) {
                        lemma_fetch_membership(lv.records, lv.links, base, n - 1);
                        let j0 = choose|j: int|
                            0 <= j < ws.len() && #[trigger] ws[j] == spec_resolve(
                                lv.records,
                                target,
                            )->Some_0;
                        assert(ws[j0] == w);
                        assert(is_matching_member(ws[j0], addr) && ws_root(lv, ws[j0]) == c);
                        assert(spec_archived(post.records, c));
                        assert(spec_resolve(post.records, target) is None);
                        assert(prev_old.push(w).drop_last() =~= prev_old);
                        assert(prev_old.push(w).last() == w);
                        assert(without_matching(prev_old.push(w), addr) == without_matching(
                            prev_old,
                            addr,
                        ));
                    } else {
                        if spec_archived(post.records, c) {
                            let j = choose|j: int|
                                0 <= j < ws.len() && is_matching_member(#[trigger] ws[j], addr)
                                    && ws_root(lv, ws[j]) == c;
                            lemma_spec_fetch_current(lv, lv.links, base);
                            assert(is_current_wire(lv, ws[j]));
                            assert(ws[j] == wire_of(lv.records, spec_tip(lv.records, c)));
                            assert(ws[j] == w);
                            assert(false);
                        }
                        assert(lv.records[t] == post.records.subrange(
                            0,
                            lv.records.len() as int,
                        )[t]);
                        assert(post.records[t] == lv.records[t]);
                        assert(wire_of(post.records, t) =~= wire_of(lv.records, t));
                        assert(spec_resolve(post.records, target) == Some(w));
                        assert(prev_old.push(w).drop_last() =~= prev_old);
                        assert(prev_old.push(w).last() == w);
                        assert(without_matching(prev_old.push(w), addr) == without_matching(
                            prev_old,
                            addr,
                        ).push(w));
                    }
                },
                None => {
                    if c == -1 {
                        assert(spec_resolve(post.records, target) is None);
                    } else if spec_archived(lv.records, c) {
                        assert(spec_archived(post.records, c));
                        assert(spec_resolve(post.records, target) is None);
                    } else {
                        assert(spec_tip(lv.records, c) == -1);
                        assert(spec_resolve(post.records, target) is None);
                    }
                },
            }
        }
    }
}

/// Archive-then-read: clearing all members of one goal removes exactly
/// the matching elements from a subsequent read of the member index and
/// leaves every unrelated element intact, in its old order; the index
/// edges themselves stay.
pub proof fn lemma_archive_then_fetch(lv: LedgerView, addr: HeaderHash)
    requires
        lv.wf(),
        lv.next_seq + lv.links.len() < u64::MAX,
    ensures
        ({
            let base = LinkBaseView::Path(spec_path_name(EntryType::GoalMember));
            let ws = spec_fetch(lv.records, lv.links, base);
            let post = spec_archive_fold(lv, ws, addr);
            &&& post.links == lv.links
            &&& spec_fetch(post.records, post.links, base) == without_matching(ws, addr)
        }),
{
    let base = LinkBaseView::Path(spec_path_name(EntryType::GoalMember));
    let ws = spec_fetch(lv.records, lv.links, base);
    lemma_spec_fetch_len(lv.records, lv.links, base);
    lemma_spec_fetch_current(lv, lv.links, base);
    lemma_fold_effect(lv, ws, addr);
    let post = spec_archive_fold(lv, ws, addr);
    lemma_archive_fetch_prefix(lv, ws, addr, post, base, lv.links.len() as int);
    assert(lv.links.take(lv.links.len() as int) =~= lv.links);
}

} // verus!
