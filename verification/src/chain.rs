use crate::entries::{
    clone_entry, entry_eq, hash_entry, EntryHash, EntryView, WireElement, WireElementView,
};
use crate::header::{address_of, spec_address_of, Header, HeaderKind};
use crate::ledger::{
    kind_carries_entry, record_shape_ok, ref_header, Ledger, LedgerView, LinkBase, LinkView,
    RecordView,
};
use vstd::prelude::*;

verus! {

// --- locating revisions ---

/// The first position holding a revision with this header, or -1.
pub open spec fn first_with_header(records: Seq<RecordView>, h: Header) -> int
    decreases records.len(),
{
    if records.len() == 0 {
        -1
    } else if records[0].header == h {
        0
    } else {
        let r = first_with_header(records.drop_first(), h);
        if r == -1 {
            -1
        } else {
            r + 1
        }
    }
}

/// What `first_with_header` finds: the least matching position when one
/// exists, -1 when none does.
pub proof fn lemma_first_with_header(records: Seq<RecordView>, h: Header)
    ensures
        first_with_header(records, h) == -1 ==> forall|i: int|
            0 <= i < records.len() ==> (#[trigger] records[i]).header != h,
        first_with_header(records, h) != -1 ==> {
            let f = first_with_header(records, h);
            &&& 0 <= f < records.len()
            &&& records[f].header == h
            &&& forall|i: int| 0 <= i < f ==> (#[trigger] records[i]).header != h
        },
    decreases records.len(),
{
    if records.len() == 0 {
    } else if records[0].header == h {
    } else {
        lemma_first_with_header(records.drop_first(), h);
        assert(forall|i: int|
            1 <= i < records.len() ==> #[trigger] records[i] == records.drop_first()[i - 1]);
    }
}

/// Under well-formedness, the back-reference of the revision at `j`
/// resolves, by first occurrence, to an earlier entry-carrying revision.
pub proof fn lemma_ref_resolves(lv: LedgerView, j: int)
    requires
        lv.wf(),
        0 <= j < lv.records.len(),
        ref_header(lv.records[j].header.kind) is Some,
    ensures
        ({
            let h = ref_header(lv.records[j].header.kind)->Some_0;
            let f = first_with_header(lv.records, h);
            &&& 0 <= f < j
            &&& lv.records[f].header == h
            &&& kind_carries_entry(lv.records[f].header.kind)
        }),
{
    let h = ref_header(lv.records[j].header.kind)->Some_0;
    let i0 = choose|i: int|
        0 <= i < j && (#[trigger] lv.records[i]).header == h && kind_carries_entry(
            lv.records[i].header.kind,
        );
    lemma_first_with_header(lv.records, h);
    let f = first_with_header(lv.records, h);
    assert(f != -1);
    if f != i0 {
        lv.lemma_headers_distinct(f, i0);
    }
}

// --- the root of a revision's chain ---

/// The position of the create revision at the bottom of the back-reference
/// chain starting at `i`; -1 if the chain cannot be followed.
pub open spec fn spec_root_of(records: Seq<RecordView>, i: int) -> int
    decreases i,
{
    if 0 <= i < records.len() {
        match ref_header(records[i].header.kind) {
            None => i,
            Some(h) => {
                let j = first_with_header(records, h);
                if 0 <= j < i {
                    spec_root_of(records, j)
                } else {
                    -1
                }
            },
        }
    } else {
        -1
    }
}

/// Under well-formedness every chain bottoms out in a create revision at or
/// before its start.
pub proof fn lemma_root_of(lv: LedgerView, i: int)
    requires
        lv.wf(),
        0 <= i < lv.records.len(),
    ensures
        ({
            let r = spec_root_of(lv.records, i);
            &&& 0 <= r <= i
            &&& lv.records[r].header.kind matches HeaderKind::Create
            &&& spec_root_of(lv.records, r) == r
        }),
    decreases i,
{
    match ref_header(lv.records[i].header.kind) {
        None => {
            assert(lv.records[i].header.kind matches HeaderKind::Create);
        },
        Some(h) => {
            lemma_ref_resolves(lv, i);
            let j = first_with_header(lv.records, h);
            lemma_root_of(lv, j);
        },
    }
}

// --- chain membership, archival, and the current tip ---

/// Whether the revision at `i` belongs to the chain rooted at `root` and
/// carries an entry, making it a candidate for the chain's current value.
pub open spec fn is_chain_entry(records: Seq<RecordView>, i: int, root: int) -> bool {
    &&& 0 <= i < records.len()
    &&& kind_carries_entry(records[i].header.kind)
    &&& spec_root_of(records, i) == root
}

/// Whether some delete revision reaches the chain rooted at `root`: the
/// logical record is archived. The delete removes nothing; history stays.
pub open spec fn spec_archived(records: Seq<RecordView>, root: int) -> bool {
    exists|i: int|
        0 <= i < records.len() && ((#[trigger] records[i]).header.kind matches HeaderKind::Delete { .. })
            && spec_root_of(records, i) == root
}

/// The fixed tie-break between concurrent revisions of one record: a higher
/// author-chain position wins, and between equal positions the higher agent
/// identifier wins. A deterministic total order on the headers that can
/// coexist in one chain.
pub open spec fn better(a: Header, b: Header) -> bool {
    a.seq > b.seq || (a.seq == b.seq && a.author.id > b.author.id)
}

/// The best candidate of the chain rooted at `root` among the first `n`
/// revisions, by the tie-break order; -1 if there is none.
pub open spec fn spec_tip_upto(records: Seq<RecordView>, root: int, n: int) -> int
    decreases n,
{
    if n <= 0 {
        -1
    } else {
        let prev = spec_tip_upto(records, root, n - 1);
        let c = n - 1;
        if is_chain_entry(records, c, root) {
            if prev == -1 || better(records[c].header, records[prev].header) {
                c
            } else {
                prev
            }
        } else {
            prev
        }
    }
}

/// The revision holding the current value of the chain rooted at `root`.
pub open spec fn spec_tip(records: Seq<RecordView>, root: int) -> int {
    spec_tip_upto(records, root, records.len() as int)
}

/// What the tip is: a candidate that no other candidate beats; and it
/// exists whenever any candidate does.
pub proof fn lemma_tip_upto(records: Seq<RecordView>, root: int, n: int)
    requires
        n <= records.len(),
    ensures
        ({
            let t = spec_tip_upto(records, root, n);
            &&& (t == -1 ==> forall|c: int| 0 <= c < n ==> !is_chain_entry(records, c, root))
            &&& (t != -1 ==> 0 <= t < n && is_chain_entry(records, t, root) && forall|c: int|
                0 <= c < n && #[trigger] is_chain_entry(records, c, root) && c != t ==> !better(
                    records[c].header,
                    records[t].header,
                ))
        }),
    decreases n,
{
    if n > 0 {
        lemma_tip_upto(records, root, n - 1);
    }
}

/// What the tip of a whole ledger's chain is.
pub proof fn lemma_tip(records: Seq<RecordView>, root: int)
    ensures
        ({
            let t = spec_tip(records, root);
            &&& (t == -1 ==> forall|c: int|
                0 <= c < records.len() ==> !is_chain_entry(records, c, root))
            &&& (t != -1 ==> 0 <= t < records.len() && is_chain_entry(records, t, root)
                && forall|c: int|
                0 <= c < records.len() && #[trigger] is_chain_entry(records, c, root) && c != t
                    ==> !better(records[c].header, records[t].header))
        }),
{
    lemma_tip_upto(records, root, records.len() as int);
}

// --- resolving an index edge to the chain's current value ---

/// The first position holding a create revision of this content, or -1: how
/// an index edge's target content hash is resolved to a logical record.
pub open spec fn first_create_with(records: Seq<RecordView>, content: EntryView) -> int
    decreases records.len(),
{
    if records.len() == 0 {
        -1
    } else if records[0].header.kind matches HeaderKind::Create && records[0].entry == Some(
        content,
    ) {
        0
    } else {
        let r = first_create_with(records.drop_first(), content);
        if r == -1 {
            -1
        } else {
            r + 1
        }
    }
}

/// What `first_create_with` finds.
pub proof fn lemma_first_create_with(records: Seq<RecordView>, content: EntryView)
    ensures
        first_create_with(records, content) == -1 ==> forall|i: int|
            0 <= i < records.len() ==> !(((#[trigger] records[i]).header.kind
                matches HeaderKind::Create) && records[i].entry == Some(content)),
        first_create_with(records, content) != -1 ==> {
            let f = first_create_with(records, content);
            &&& 0 <= f < records.len()
            &&& records[f].header.kind matches HeaderKind::Create
            &&& records[f].entry == Some(content)
            &&& forall|i: int|
                0 <= i < f ==> !(((#[trigger] records[i]).header.kind matches HeaderKind::Create)
                    && records[i].entry == Some(content))
        },
    decreases records.len(),
{
    if records.len() == 0 {
    } else if records[0].header.kind matches HeaderKind::Create && records[0].entry == Some(
        content,
    ) {
    } else {
        lemma_first_create_with(records.drop_first(), content);
        assert(forall|i: int|
            1 <= i < records.len() ==> #[trigger] records[i] == records.drop_first()[i - 1]);
    }
}

/// The wire element projected from the revision at `t`.
pub open spec fn wire_of(records: Seq<RecordView>, t: int) -> WireElementView {
    WireElementView {
        entry: records[t].entry->Some_0,
        header_hash: spec_address_of(records[t].header),
        entry_hash: records[t].entry->Some_0,
    }
}

/// Resolves one index edge target to the current value of its logical
/// record: none if no create revision carries the content, or if the record
/// is archived.
pub open spec fn spec_resolve(records: Seq<RecordView>, target: EntryView) -> Option<
    WireElementView,
> {
    let c = first_create_with(records, target);
    if c == -1 {
        None
    } else if spec_archived(records, c) {
        None
    } else {
        let t = spec_tip(records, c);
        if t == -1 {
            None
        } else {
            Some(wire_of(records, t))
        }
    }
}

/// Everything a read of one index root returns: each edge under the root,
/// in edge order, resolved to its record's current value; archived and
/// unresolvable records are left out. An empty index yields an empty set,
/// never an error.
pub open spec fn spec_fetch(
    records: Seq<RecordView>,
    links: Seq<LinkView>,
    base: crate::ledger::LinkBaseView,
) -> Seq<WireElementView>
    decreases links.len(),
{
    if links.len() == 0 {
        Seq::empty()
    } else {
        let prev = spec_fetch(records, links.drop_last(), base);
        let lk = links.last();
        if lk.base == base {
            match spec_resolve(records, lk.target) {
                Some(w) => prev.push(w),
                None => prev,
            }
        } else {
            prev
        }
    }
}

// --- how appending one revision changes resolution ---

/// Appending a revision leaves the first occurrence of every header where
/// it was; a header seen for the first time is found at the end.
pub proof fn lemma_first_push(s: Seq<RecordView>, x: RecordView, h: Header)
    ensures
        first_with_header(s, h) != -1 ==> first_with_header(s.push(x), h) == first_with_header(
            s,
            h,
        ),
        first_with_header(s, h) == -1 && x.header == h ==> first_with_header(s.push(x), h)
            == s.len() as int,
        first_with_header(s, h) == -1 && x.header != h ==> first_with_header(s.push(x), h) == -1,
    decreases s.len(),
{
    if s.len() == 0 {
        assert(s.push(x)[0] == x);
        assert(s.push(x).drop_first() =~= Seq::<RecordView>::empty());
        assert(first_with_header(Seq::<RecordView>::empty(), h) == -1);
    } else {
        assert(s.push(x)[0] == s[0]);
        assert(s.push(x).drop_first() =~= s.drop_first().push(x));
        lemma_first_with_header(s.drop_first(), h);
        lemma_first_with_header(s.drop_first().push(x), h);
        lemma_first_push(s.drop_first(), x, h);
    }
}

/// The same for the first create revision carrying given content.
pub proof fn lemma_first_create_push(s: Seq<RecordView>, x: RecordView, c: EntryView)
    ensures
        first_create_with(s, c) != -1 ==> first_create_with(s.push(x), c) == first_create_with(
            s,
            c,
        ),
        first_create_with(s, c) == -1 && ((x.header.kind matches HeaderKind::Create) && x.entry
            == Some(c)) ==> first_create_with(s.push(x), c) == s.len() as int,
        first_create_with(s, c) == -1 && !((x.header.kind matches HeaderKind::Create) && x.entry
            == Some(c)) ==> first_create_with(s.push(x), c) == -1,
    decreases s.len(),
{
    if s.len() == 0 {
        assert(s.push(x)[0] == x);
        assert(s.push(x).drop_first() =~= Seq::<RecordView>::empty());
        assert(first_create_with(Seq::<RecordView>::empty(), c) == -1);
    } else {
        assert(s.push(x)[0] == s[0]);
        assert(s.push(x).drop_first() =~= s.drop_first().push(x));
        lemma_first_create_with(s.drop_first(), c);
        lemma_first_create_with(s.drop_first().push(x), c);
        lemma_first_create_push(s.drop_first(), x, c);
    }
}

/// Appending a revision never changes the root of an existing revision.
pub proof fn lemma_root_of_append(s: Seq<RecordView>, x: RecordView, i: int)
    requires
        0 <= i < s.len(),
    ensures
        spec_root_of(s.push(x), i) == spec_root_of(s, i),
    decreases i,
{
    assert(s.push(x)[i] == s[i]);
    match ref_header(s[i].header.kind) {
        None => {},
        Some(h) => {
            lemma_first_push(s, x, h);
            let j = first_with_header(s, h);
            if 0 <= j < i {
                lemma_root_of_append(s, x, j);
            }
        },
    }
}

/// Appending a revision whose back-reference resolves within the existing
/// ledger gives the new revision the root of the revision it references.
pub proof fn lemma_root_of_appended(s: Seq<RecordView>, x: RecordView, f: int)
    requires
        ref_header(x.header.kind) is Some,
        first_with_header(s, ref_header(x.header.kind)->Some_0) == f,
        0 <= f < s.len(),
    ensures
        spec_root_of(s.push(x), s.len() as int) == spec_root_of(s, f),
{
    let h = ref_header(x.header.kind)->Some_0;
    lemma_first_push(s, x, h);
    assert(spec_root_of(s.push(x), s.len() as int) == spec_root_of(s.push(x), f));
    lemma_root_of_append(s, x, f);
}

/// Appending a revision archives at most its own chain: every other chain's
/// archived status is untouched.
pub proof fn lemma_archived_append(s: Seq<RecordView>, x: RecordView, root: int)
    ensures
        spec_archived(s.push(x), root) <==> (spec_archived(s, root) || ((x.header.kind
            matches HeaderKind::Delete { .. }) && spec_root_of(s.push(x), s.len() as int) == root)),
{
    let t = s.push(x);
    if spec_archived(s, root) {
        let i = choose|i: int|
            0 <= i < s.len() && ((#[trigger] s[i]).header.kind matches HeaderKind::Delete { .. })
                && spec_root_of(s, i) == root;
        lemma_root_of_append(s, x, i);
        assert(t[i] == s[i]);
        assert(0 <= i < t.len() && (t[i].header.kind matches HeaderKind::Delete { .. })
            && spec_root_of(t, i) == root);
    }
    if (x.header.kind matches HeaderKind::Delete { .. }) && spec_root_of(t, s.len() as int)
        == root {
        let e: int = s.len() as int;
        assert(t[e] == x);
        assert(0 <= e < t.len() && (t[e].header.kind matches HeaderKind::Delete { .. })
            && spec_root_of(t, e) == root);
    }
    if spec_archived(t, root) {
        let i = choose|i: int|
            0 <= i < t.len() && ((#[trigger] t[i]).header.kind matches HeaderKind::Delete { .. })
                && spec_root_of(t, i) == root;
        if i < s.len() {
            lemma_root_of_append(s, x, i);
            assert(t[i] == s[i]);
            assert(0 <= i < s.len() && (s[i].header.kind matches HeaderKind::Delete { .. })
                && spec_root_of(s, i) == root);
        } else {
            assert(t[i] == x);
        }
    }
}

/// The tip among the first `n` revisions does not change when a revision is
/// appended behind them.
pub proof fn lemma_tip_upto_append(s: Seq<RecordView>, x: RecordView, root: int, n: int)
    requires
        n <= s.len(),
    ensures
        spec_tip_upto(s.push(x), root, n) == spec_tip_upto(s, root, n),
    decreases n,
{
    if n > 0 {
        lemma_tip_upto_append(s, x, root, n - 1);
        assert(s.push(x)[n - 1] == s[n - 1]);
        if 0 <= n - 1 < s.len() {
            lemma_root_of_append(s, x, n - 1);
        }
        assert(is_chain_entry(s.push(x), n - 1, root) == is_chain_entry(s, n - 1, root));
        let prev = spec_tip_upto(s, root, n - 1);
        if prev != -1 {
            lemma_tip_upto(s, root, n - 1);
            assert(s.push(x)[prev] == s[prev]);
        }
    }
}

/// How the tip of a chain changes when one revision is appended: the new
/// revision takes the tip exactly when it belongs to the chain, carries an
/// entry, and beats the old tip in the tie-break order.
pub proof fn lemma_tip_append(s: Seq<RecordView>, x: RecordView, root: int)
    ensures
        spec_tip(s.push(x), root) == ({
            let prev = spec_tip(s, root);
            if is_chain_entry(s.push(x), s.len() as int, root) {
                if prev == -1 || better(x.header, s[prev].header) {
                    s.len() as int
                } else {
                    prev
                }
            } else {
                prev
            }
        }),
{
    let t = s.push(x);
    lemma_tip_upto_append(s, x, root, s.len() as int);
    assert(spec_tip_upto(t, root, s.len() as int + 1) == spec_tip(t, root));
    assert(t[s.len() as int] == x);
    let prev = spec_tip(s, root);
    if prev != -1 {
        lemma_tip(s, root);
        assert(t[prev] == s[prev]);
    }
}

/// A read never returns more elements than there are index edges.
pub proof fn lemma_spec_fetch_len(
    records: Seq<RecordView>,
    links: Seq<LinkView>,
    base: crate::ledger::LinkBaseView,
)
    ensures
        spec_fetch(records, links, base).len() <= links.len(),
    decreases links.len(),
{
    if links.len() > 0 {
        lemma_spec_fetch_len(records, links.drop_last(), base);
    }
}

/// Whether a wire element is the projection of an entry-carrying revision
/// of this ledger.
pub open spec fn from_entry_record(records: Seq<RecordView>, w: WireElementView) -> bool {
    exists|t: int|
        0 <= t < records.len() && kind_carries_entry((#[trigger] records[t]).header.kind)
            && records[t].entry == Some(w.entry) && w == wire_of(records, t)
}

/// Every element a read returns is the projection of an entry-carrying
/// revision of the ledger.
pub proof fn lemma_spec_fetch_elements(
    lv: LedgerView,
    links: Seq<LinkView>,
    base: crate::ledger::LinkBaseView,
)
    requires
        lv.wf(),
    ensures
        forall|k: int|
            0 <= k < spec_fetch(lv.records, links, base).len() ==> from_entry_record(
                lv.records,
                #[trigger] spec_fetch(lv.records, links, base)[k],
            ),
    decreases links.len(),
{
    if links.len() > 0 {
        lemma_spec_fetch_elements(lv, links.drop_last(), base);
        let prev = spec_fetch(lv.records, links.drop_last(), base);
        let cur = spec_fetch(lv.records, links, base);
        let lk = links.last();
        if lk.base == base && spec_resolve(lv.records, lk.target) is Some {
            let c = first_create_with(lv.records, lk.target);
            let t = spec_tip(lv.records, c);
            lemma_tip(lv.records, c);
            let w = wire_of(lv.records, t);
            assert(is_chain_entry(lv.records, t, c));
            assert(record_shape_ok(lv.records[t]));
            assert(lv.records[t].entry == Some(w.entry));
            assert(cur == prev.push(w));
            assert(from_entry_record(lv.records, w));
            assert(forall|k: int| 0 <= k < prev.len() ==> cur[k] == prev[k]);
        } else {
            assert(cur == prev);
        }
    }
}

/// The root of the chain that a wire element's header belongs to, located
/// through the header's first occurrence.
pub open spec fn ws_root(lv: LedgerView, w: WireElementView) -> int {
    spec_root_of(lv.records, first_with_header(lv.records, *w.header_hash.header))
}

/// Whether a wire element is the current value of the chain its header
/// roots in: the projection of that chain's tip.
pub open spec fn is_current_wire(lv: LedgerView, w: WireElementView) -> bool {
    let r = ws_root(lv, w);
    spec_tip(lv.records, r) != -1 && w == wire_of(lv.records, spec_tip(lv.records, r))
}

/// Every element a read returns is the current value of its own chain.
pub proof fn lemma_spec_fetch_current(
    lv: LedgerView,
    links: Seq<LinkView>,
    base: crate::ledger::LinkBaseView,
)
    requires
        lv.wf(),
    ensures
        forall|k: int|
            0 <= k < spec_fetch(lv.records, links, base).len() ==> is_current_wire(
                lv,
                #[trigger] spec_fetch(lv.records, links, base)[k],
            ),
    decreases links.len(),
{
    if links.len() > 0 {
        lemma_spec_fetch_current(lv, links.drop_last(), base);
        let prev = spec_fetch(lv.records, links.drop_last(), base);
        let cur = spec_fetch(lv.records, links, base);
        let lk = links.last();
        if lk.base == base && spec_resolve(lv.records, lk.target) is Some {
            let c = first_create_with(lv.records, lk.target);
            let t = spec_tip(lv.records, c);
            lemma_tip(lv.records, c);
            assert(is_chain_entry(lv.records, t, c));
            let w = wire_of(lv.records, t);
            let h = lv.records[t].header;
            assert(*w.header_hash.header == h);
            lemma_first_with_header(lv.records, h);
            let f = first_with_header(lv.records, h);
            assert(f != -1);
            if f != t {
                lv.lemma_headers_distinct(f, t);
            }
            assert(ws_root(lv, w) == spec_root_of(lv.records, t));
            assert(spec_root_of(lv.records, t) == c);
            assert(is_current_wire(lv, w));
            assert(cur == prev.push(w));
            assert(forall|k: int| 0 <= k < prev.len() ==> cur[k] == prev[k]);
        } else {
            assert(cur == prev);
        }
    }
}

/// Each edge under the read root that resolves contributes its element to
/// the read's result.
pub proof fn lemma_fetch_membership(
    records: Seq<RecordView>,
    links: Seq<LinkView>,
    base: crate::ledger::LinkBaseView,
    k: int,
)
    requires
        0 <= k < links.len(),
        links[k].base == base,
        spec_resolve(records, links[k].target) is Some,
    ensures
        exists|j: int|
            0 <= j < spec_fetch(records, links, base).len() && #[trigger] spec_fetch(
                records,
                links,
                base,
            )[j] == spec_resolve(records, links[k].target)->Some_0,
    decreases links.len(),
{
    let cur = spec_fetch(records, links, base);
    let prev = spec_fetch(records, links.drop_last(), base);
    if k == links.len() - 1 {
        assert(links.last() == links[k]);
        assert(cur[prev.len() as int] == spec_resolve(records, links[k].target)->Some_0);
    } else {
        assert(links.drop_last()[k] == links[k]);
        lemma_fetch_membership(records, links.drop_last(), base, k);
        let j = choose|j: int|
            0 <= j < prev.len() && #[trigger] prev[j] == spec_resolve(
                records,
                links[k].target,
            )->Some_0;
        if links.last().base == base && spec_resolve(records, links.last().target) is Some {
            assert(cur[j] == prev[j]);
        } else {
            assert(cur == prev);
        }
    }
}

// --- executable counterparts ---

/// Finds the first revision with this header.
pub(crate) fn find_first_header(l: &Ledger, h: &Header) -> (r: Option<usize>)
    ensures
        match r {
            Some(i) => first_with_header(l@.records, *h) == i as int,
            None => first_with_header(l@.records, *h) == -1,
        },
{
    let n = l.records.len();
    let mut k: usize = 0;
    while k < n
        invariant
            n == l@.records.len(),
            k <= n,
            l@.records == l.records@.map_values(|r: crate::ledger::Record| r@),
            forall|j: int| 0 <= j < k ==> (#[trigger] l@.records[j]).header != *h,
        decreases n - k,
    {
        if crate::header::header_eq(&l.records[k].header, h) {
            proof {
                assert(l@.records[k as int].header == *h);
                lemma_first_with_header(l@.records, *h);
                let fw = first_with_header(l@.records, *h);
                if fw == -1 {
                    assert(false);
                } else if fw < k as int {
                    assert(l@.records[fw].header != *h);
                    assert(false);
                } else if fw > k as int {
                    assert(l@.records[k as int].header != *h);
                    assert(false);
                }
            }
            return Some(k);
        }
        k += 1;
    }
    proof {
        lemma_first_with_header(l@.records, *h);
        let fw = first_with_header(l@.records, *h);
        if fw != -1 {
            assert(l@.records[fw].header != *h);
            assert(false);
        }
    }
    None
}

/// Finds the first create revision carrying this content.
fn find_first_create(l: &Ledger, target: &EntryHash) -> (r: Option<usize>)
    ensures
        match r {
            Some(c) => first_create_with(l@.records, target@) == c as int,
            None => first_create_with(l@.records, target@) == -1,
        },
{
    let n = l.records.len();
    let mut k: usize = 0;
    while k < n
        invariant
            n == l@.records.len(),
            k <= n,
            l@.records == l.records@.map_values(|r: crate::ledger::Record| r@),
            forall|j: int|
                0 <= j < k ==> !(((#[trigger] l@.records[j]).header.kind
                    matches HeaderKind::Create) && l@.records[j].entry == Some(target@)),
        decreases n - k,
    {
        let rec = &l.records[k];
        let is_create = matches!(&rec.header.kind, HeaderKind::Create);
        if is_create {
            match &rec.entry {
                Some(e) => {
                    if entry_eq(e, &target.content) {
                        proof {
                            assert((l@.records[k as int].header.kind matches HeaderKind::Create)
                                && l@.records[k as int].entry == Some(target@));
                            lemma_first_create_with(l@.records, target@);
                            let fc = first_create_with(l@.records, target@);
                            if fc == -1 {
                                assert(false);
                            } else if fc < k as int {
                                assert(!((l@.records[fc].header.kind matches HeaderKind::Create)
                                    && l@.records[fc].entry == Some(target@)));
                                assert(false);
                            } else if fc > k as int {
                                assert(!((l@.records[k as int].header.kind
                                    matches HeaderKind::Create) && l@.records[k as int].entry
                                    == Some(target@)));
                                assert(false);
                            }
                        }
                        return Some(k);
                    }
                },
                None => {},
            }
        }
        k += 1;
    }
    proof {
        lemma_first_create_with(l@.records, target@);
        let fc = first_create_with(l@.records, target@);
        if fc != -1 {
            assert(!((l@.records[fc].header.kind matches HeaderKind::Create) && l@.records[fc].entry
                == Some(target@)));
            assert(false);
        }
    }
    None
}

/// Follows back-references from the revision at `i` down to the create
/// revision at the root of its chain.
pub fn root_of(l: &Ledger, i: usize) -> (r: usize)
    requires
        l@.wf(),
        i < l@.records.len(),
    ensures
        r as int == spec_root_of(l@.records, i as int),
{
    let mut cur: usize = i;
    loop
        invariant
            l@.wf(),
            cur < l@.records.len(),
            l@.records == l.records@.map_values(|r: crate::ledger::Record| r@),
            spec_root_of(l@.records, cur as int) == spec_root_of(l@.records, i as int),
        decreases cur,
    {
        let next: Option<usize> = match &l.records[cur].header.kind {
            HeaderKind::Create => {
                return cur;
            },
            HeaderKind::Update { original } => {
                proof {
                    lemma_ref_resolves(l@, cur as int);
                }
                find_first_header(l, &original.header)
            },
            HeaderKind::Delete { deleted } => {
                proof {
                    lemma_ref_resolves(l@, cur as int);
                }
                find_first_header(l, &deleted.header)
            },
        };
        match next {
            Some(j) => {
                cur = j;
            },
            None => {
                proof {
                    assert(false);
                }
                return cur;
            },
        }
    }
}

/// Whether the chain rooted at `root` has been archived by some delete
/// revision.
pub fn is_archived(l: &Ledger, root: usize) -> (r: bool)
    requires
        l@.wf(),
    ensures
        r == spec_archived(l@.records, root as int),
{
    let n = l.records.len();
    let mut k: usize = 0;
    while k < n
        invariant
            l@.wf(),
            n == l@.records.len(),
            k <= n,
            l@.records == l.records@.map_values(|r: crate::ledger::Record| r@),
            forall|j: int|
                0 <= j < k ==> !(((#[trigger] l@.records[j]).header.kind
                    matches HeaderKind::Delete { .. }) && spec_root_of(l@.records, j) == root
                    as int),
        decreases n - k,
    {
        let is_del = matches!(&l.records[k].header.kind, HeaderKind::Delete { .. });
        if is_del {
            let r0 = root_of(l, k);
            if r0 == root {
                return true;
            }
        }
        k += 1;
    }
    false
}

/// The position holding the current value of the chain rooted at `root`,
/// by the fixed tie-break; none when the chain has no entry-carrying member.
pub fn tip_of(l: &Ledger, root: usize) -> (r: Option<usize>)
    requires
        l@.wf(),
    ensures
        match r {
            Some(t) => spec_tip(l@.records, root as int) == t as int,
            None => spec_tip(l@.records, root as int) == -1,
        },
{
    let n = l.records.len();
    let mut best: Option<usize> = None;
    let mut k: usize = 0;
    while k < n
        invariant
            l@.wf(),
            n == l@.records.len(),
            k <= n,
            l@.records == l.records@.map_values(|r: crate::ledger::Record| r@),
            match best {
                Some(b) => b < k && spec_tip_upto(l@.records, root as int, k as int) == b as int,
                None => spec_tip_upto(l@.records, root as int, k as int) == -1,
            },
        decreases n - k,
    {
        let carries = !matches!(&l.records[k].header.kind, HeaderKind::Delete { .. });
        if carries && root_of(l, k) == root {
            let take_it = match best {
                Some(b) => {
                    let hk = &l.records[k].header;
                    let hb = &l.records[b].header;
                    hk.seq > hb.seq || (hk.seq == hb.seq && hk.author.id > hb.author.id)
                },
                None => true,
            };
            if take_it {
                best = Some(k);
            }
        }
        k += 1;
    }
    best
}

/// Resolves an index edge target to the current value of its logical
/// record, as a wire element.
pub fn resolve_target(l: &Ledger, target: &EntryHash) -> (r: Option<WireElement>)
    requires
        l@.wf(),
    ensures
        match r {
            Some(w) => spec_resolve(l@.records, target@) == Some(w@),
            None => spec_resolve(l@.records, target@) is None,
        },
{
    match find_first_create(l, target) {
        None => None,
        Some(c) => {
            if is_archived(l, c) {
                return None;
            }
            proof {
                lemma_first_create_with(l@.records, target@);
                assert(l@.records[c as int].header.kind matches HeaderKind::Create);
                lemma_tip(l@.records, c as int);
                assert(is_chain_entry(l@.records, c as int, c as int));
            }
            match tip_of(l, c) {
                Some(t) => {
                    match &l.records[t].entry {
                        Some(e) => {
                            let w = WireElement {
                                entry: clone_entry(e),
                                header_hash: address_of(&l.records[t].header),
                                entry_hash: hash_entry(e),
                            };
                            proof {
                                assert(w@ =~= wire_of(l@.records, t as int));
                            }
                            Some(w)
                        },
                        None => {
                            proof {
                                assert(false);
                            }
                            None
                        },
                    }
                },
                None => {
                    proof {
                        assert(false);
                    }
                    None
                },
            }
        },
    }
}

/// Structural equality of two index roots.
pub fn link_base_eq(a: &LinkBase, b: &LinkBase) -> (r: bool)
    ensures
        r == (a@ == b@),
{
    match (a, b) {
        (LinkBase::Path(x), LinkBase::Path(y)) => x.eq(y),
        (LinkBase::Agent(x), LinkBase::Agent(y)) => x.id == y.id,
        _ => false,
    }
}

/// Enumerates every index edge under one root and follows each target's
/// chain to its current value: the read side of the engine. A root with no
/// edges yields the empty list, never an error.
pub fn fetch_latest(l: &Ledger, base: &LinkBase) -> (r: Vec<WireElement>)
    requires
        l@.wf(),
    ensures
        r@.map_values(|w: WireElement| w@) == spec_fetch(l@.records, l@.links, base@),
{
    let n = l.links.len();
    let mut out: Vec<WireElement> = Vec::new();
    let mut k: usize = 0;
    while k < n
        invariant
            l@.wf(),
            n == l@.links.len(),
            k <= n,
            l@.links == l.links@.map_values(|x: crate::ledger::Link| x@),
            out@.map_values(|w: WireElement| w@) == spec_fetch(
                l@.records,
                l@.links.take(k as int),
                base@,
            ),
        decreases n - k,
    {
        let ghost pre = out@.map_values(|w: WireElement| w@);
        let lk = &l.links[k];
        if link_base_eq(&lk.base, base) {
            match resolve_target(l, &lk.target) {
                Some(w) => {
                    let ghost wv = w@;
                    out.push(w);
                    proof {
                        assert(out@.map_values(|w: WireElement| w@) =~= pre.push(wv));
                    }
                },
                None => {},
            }
        }
        proof {
            assert(l@.links.take(k as int + 1).drop_last() =~= l@.links.take(k as int));
            assert(l@.links.take(k as int + 1).last() == l@.links[k as int]);
        }
        k += 1;
    }
    proof {
        assert(l@.links.take(n as int) =~= l@.links);
    }
    out
}

} // verus!
