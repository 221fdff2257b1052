use crate::chain::{
    fetch_latest, first_with_header, from_entry_record, lemma_first_with_header,
    lemma_spec_fetch_elements, lemma_spec_fetch_len, spec_fetch, wire_of,
};
use crate::crud::{delete_record, spec_after_append, spec_entry_signal, spec_resolvable};
use crate::entries::{
    spec_delete_allowed, spec_path_name, spec_type_of, Entry, EntryType, EntryView, WireElement,
    WireElementView,
};
use crate::hashes::AgentPubKey;
use crate::header::{header_hash_eq, Header, HeaderHash, HeaderKind};
use crate::ledger::{kind_carries_entry, Ledger, LedgerView, LinkBase, LinkBaseView};
use crate::signals::{ActionType, RemoteSignal, RemoteSignalView};
use crate::validate::{
    spec_validate_author, validate_value_matches_create_author, ValidateCallbackResult,
    ValidateData, ValidateDataView, ValidateOutcome, ValidationError,
};
use vstd::prelude::*;

verus! {

/// The outcome of validating an offered goal-member create: the entry must
/// deserialize as a goal member; the referenced goal's header must exist
/// locally (a hard dependency); and unless the entry is imported, its
/// self-reported author must equal the committing author.
pub open spec fn spec_validate_create_goal_member(
    lv: LedgerView,
    d: ValidateDataView,
) -> ValidateOutcome {
    match d.entry {
        Some(EntryView::GoalMember(gm)) => {
            if first_with_header(lv.records, *gm.goal_address.header) == -1 {
                ValidateOutcome::Invalid(ValidationError::NotFound)
            } else if gm.is_imported {
                ValidateOutcome::Valid
            } else {
                spec_validate_author(gm.user_edit_hash, d)
            }
        },
        _ => ValidateOutcome::Invalid(ValidationError::DeserializationFailed),
    }
}

/// Creates are allowed if the referenced goal exists and `user_edit_hash`
/// matches the agent authoring the entry — unless `is_imported` is true,
/// the deliberate trust-boundary bypass for bulk historical migration.
pub fn validate_create_entry_goal_member(d: &ValidateData, l: &Ledger) -> (r:
    ValidateCallbackResult)
    ensures
        r@ == spec_validate_create_goal_member(l@, d@),
{
    match &d.entry {
        Some(Entry::GoalMember(gm)) => {
            match crate::chain::find_first_header(l, &gm.goal_address.header) {
                None => ValidateCallbackResult::Invalid(ValidationError::NotFound),
                Some(_) => {
                    if gm.is_imported {
                        ValidateCallbackResult::Valid
                    } else {
                        validate_value_matches_create_author(&gm.user_edit_hash, d)
                    }
                },
            }
        },
        _ => ValidateCallbackResult::Invalid(ValidationError::DeserializationFailed),
    }
}

/// Updates of goal members are never allowed.
pub fn validate_update_entry_goal_member(d: &ValidateData) -> (r: ValidateCallbackResult)
    ensures
        r@ == ValidateOutcome::Invalid(ValidationError::UpdateForbidden),
{
    let _ = d;
    ValidateCallbackResult::Invalid(ValidationError::UpdateForbidden)
}

/// Deletes of goal members are allowed by anyone.
pub fn validate_delete_entry_goal_member(d: &ValidateData) -> (r: ValidateCallbackResult)
    ensures
        r@ == ValidateOutcome::Valid,
{
    let _ = d;
    ValidateCallbackResult::Valid
}

// --- clearing all members of one goal ---

/// Whether a fetched element is a goal member assigned to this goal.
pub open spec fn is_matching_member(w: WireElementView, addr: HeaderHash) -> bool {
    w.entry matches EntryView::GoalMember(gm) && gm.goal_address == addr
}

/// The addresses of the matching elements, in fetch order.
pub open spec fn spec_matching_addresses(ws: Seq<WireElementView>, addr: HeaderHash) -> Seq<
    HeaderHash,
>
    decreases ws.len(),
{
    if ws.len() == 0 {
        Seq::empty()
    } else {
        let prev = spec_matching_addresses(ws.drop_last(), addr);
        if is_matching_member(ws.last(), addr) {
            prev.push(ws.last().header_hash)
        } else {
            prev
        }
    }
}

/// The delete signals announcing the archived matching elements, in fetch
/// order: one per match, each carrying the archived element, addressed to
/// the given peers.
pub open spec fn spec_matching_signals(
    ws: Seq<WireElementView>,
    addr: HeaderHash,
    peers: Seq<AgentPubKey>,
) -> Seq<RemoteSignalView>
    decreases ws.len(),
{
    if ws.len() == 0 {
        Seq::empty()
    } else {
        let prev = spec_matching_signals(ws.drop_last(), addr, peers);
        if is_matching_member(ws.last(), addr) {
            prev.push(
                spec_entry_signal(EntryType::GoalMember, ActionType::Delete, ws.last(), peers),
            )
        } else {
            prev
        }
    }
}

/// The fetched elements with the matching ones left out, in order.
pub open spec fn without_matching(ws: Seq<WireElementView>, addr: HeaderHash) -> Seq<
    WireElementView,
>
    decreases ws.len(),
{
    if ws.len() == 0 {
        Seq::empty()
    } else {
        let prev = without_matching(ws.drop_last(), addr);
        if is_matching_member(ws.last(), addr) {
            prev
        } else {
            prev.push(ws.last())
        }
    }
}

/// The ledger after archiving, in fetch order, every matching element: one
/// delete revision per match, each at the then-current chain position.
pub open spec fn spec_archive_fold(
    lv: LedgerView,
    ws: Seq<WireElementView>,
    addr: HeaderHash,
) -> LedgerView
    decreases ws.len(),
{
    if ws.len() == 0 {
        lv
    } else {
        let prev = spec_archive_fold(lv, ws.drop_last(), addr);
        let w = ws.last();
        if is_matching_member(w, addr) {
            spec_after_append(
                prev,
                Header {
                    author: prev.author,
                    seq: prev.next_seq,
                    kind: HeaderKind::Delete { deleted: Box::new(w.header_hash) },
                },
                None,
            )
        } else {
            prev
        }
    }
}

/// Clears all members of one goal: fetches every goal-member record,
/// archives exactly those whose `goal_address` equals the given address,
/// and returns the archived headers' addresses together with one delete
/// signal per archived element, each announcing that element to the given
/// peers; unrelated members are untouched.
pub fn archive_goal_members(l: &mut Ledger, address: &HeaderHash, peers: &Vec<AgentPubKey>) -> (r: (
    Vec<HeaderHash>,
    Vec<RemoteSignal>,
))
    requires
        old(l)@.wf(),
        old(l)@.next_seq + old(l)@.links.len() < u64::MAX,
    ensures
        final(l)@.wf(),
        ({
            let ws = spec_fetch(
                old(l)@.records,
                old(l)@.links,
                LinkBaseView::Path(spec_path_name(EntryType::GoalMember)),
            );
            &&& final(l)@ == spec_archive_fold(old(l)@, ws, *address)
            &&& r.0@ == spec_matching_addresses(ws, *address)
            &&& r.1@.map_values(|s: RemoteSignal| s@) == spec_matching_signals(
                ws,
                *address,
                peers@,
            )
        }),
{
    let ghost pre = l@;
    let base = LinkBase::Path(crate::entries::path_name(EntryType::GoalMember));
    let fetched = fetch_latest(l, &base);
    let ghost ws = spec_fetch(pre.records, pre.links, LinkBaseView::Path(
        spec_path_name(EntryType::GoalMember),
    ));
    proof {
        assert(fetched@.map_values(|w: WireElement| w@) == ws);
        lemma_spec_fetch_len(pre.records, pre.links, LinkBaseView::Path(
            spec_path_name(EntryType::GoalMember),
        ));
        lemma_spec_fetch_elements(pre, pre.links, LinkBaseView::Path(
            spec_path_name(EntryType::GoalMember),
        ));
    }
    let n = fetched.len();
    let mut out: Vec<HeaderHash> = Vec::new();
    let mut sigs: Vec<RemoteSignal> = Vec::new();
    let mut k: usize = 0;
    while k < n
        invariant
            k <= n,
            n == ws.len(),
            ws.len() <= pre.links.len(),
            pre.wf(),
            pre.next_seq + pre.links.len() < u64::MAX,
            fetched@.map_values(|w: WireElement| w@) == ws,
            forall|j: int| 0 <= j < ws.len() ==> from_entry_record(pre.records, #[trigger] ws[j]),
            l@.wf(),
            l@.author == pre.author,
            pre.records.is_prefix_of(l@.records),
            pre.next_seq <= l@.next_seq,
            l@.next_seq <= pre.next_seq + k,
            l@ == spec_archive_fold(pre, ws.take(k as int), *address),
            out@ == spec_matching_addresses(ws.take(k as int), *address),
            sigs@.map_values(|s: RemoteSignal| s@) == spec_matching_signals(
                ws.take(k as int),
                *address,
                peers@,
            ),
        decreases n - k,
    {
        let w = &fetched[k];
        let matching = match &w.entry {
            Entry::GoalMember(gm) => header_hash_eq(&gm.goal_address, address),
            _ => false,
        };
        proof {
            assert(w@ == ws[k as int]);
            assert(matching == is_matching_member(ws[k as int], *address));
            assert(ws.take(k as int + 1).drop_last() =~= ws.take(k as int));
            assert(ws.take(k as int + 1).last() == ws[k as int]);
        }
        if matching {
            let ghost cur = l@;
            proof {
                // The fetched element projects an entry-carrying revision of
                // the pre-state ledger, still present at the same position.
                assert(from_entry_record(pre.records, ws[k as int]));
                let t = choose|t: int|
                    0 <= t < pre.records.len() && kind_carries_entry(
                        (#[trigger] pre.records[t]).header.kind,
                    ) && pre.records[t].entry == Some(ws[k as int].entry) && ws[k as int] == wire_of(
                        pre.records,
                        t,
                    );
                assert(cur.records[t] == pre.records.subrange(0, pre.records.len() as int)[t]);
                assert(cur.records[t] == pre.records[t]);
                let h = *ws[k as int].header_hash.header;
                assert(cur.records[t].header == h);
                lemma_first_with_header(cur.records, h);
                let f = first_with_header(cur.records, h);
                assert(f != -1);
                if f != t {
                    cur.lemma_headers_distinct(f, t);
                }
                assert(f == t);
                assert(spec_resolvable(cur, h));
                assert(cur.records[t].entry == Some(ws[k as int].entry));
                assert(spec_delete_allowed(spec_type_of(cur.records[t].entry->Some_0)));
                // The archived element is exactly what the delete signal
                // will carry.
                assert(cur.records[f].entry == Some(ws[k as int].entry));
                assert(spec_type_of(cur.records[f].entry->Some_0) == EntryType::GoalMember);
                assert(ws[k as int].entry_hash == ws[k as int].entry);
                assert(crate::crud::spec_deleted_wire(cur, ws[k as int].header_hash)
                    =~= ws[k as int]);
            }
            match delete_record(l, &w.header_hash, crate::hashes::clone_agents(peers)) {
                Ok((hh, sig)) => {
                    out.push(hh);
                    proof {
                        assert(sig@ == spec_entry_signal(
                            EntryType::GoalMember,
                            ActionType::Delete,
                            ws[k as int],
                            peers@,
                        ));
                    }
                    sigs.push(sig);
                    proof {
                        assert(l@ == spec_archive_fold(pre, ws.take(k as int + 1), *address));
                        assert(out@ =~= spec_matching_addresses(ws.take(k as int + 1), *address));
                        assert(sigs@.map_values(|s: RemoteSignal| s@) =~= spec_matching_signals(
                            ws.take(k as int + 1),
                            *address,
                            peers@,
                        ));
                    }
                },
                Err(_) => {
                    proof {
                        assert(false);
                    }
                },
            }
        } else {
            proof {
                assert(l@ == spec_archive_fold(pre, ws.take(k as int + 1), *address));
                assert(out@ == spec_matching_addresses(ws.take(k as int + 1), *address));
                assert(sigs@.map_values(|s: RemoteSignal| s@) == spec_matching_signals(
                    ws.take(k as int + 1),
                    *address,
                    peers@,
                ));
            }
        }
        k += 1;
    }
    proof {
        assert(ws.take(n as int) =~= ws);
    }
    (out, sigs)
}

} // verus!
