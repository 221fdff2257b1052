use crate::chain::{fetch_latest, spec_fetch};
use crate::entries::{path_name, spec_path_name, EntryType, Member, WireElement};
use crate::hashes::AgentPubKey;
use crate::ledger::{Ledger, LinkBase, LinkBaseView};
use crate::signals::{
    prepare_remote_signal, MemberSignal, MemberSignalView, RemoteSignal, RemoteSignalView,
    SignalInner, SignalInnerView, TransportEnvelopeView,
};
use vstd::prelude::*;

verus! {

/// Lists the agents who have joined the project: every member record
/// discoverable under the member path, resolved to its current value.
pub fn fetch_members(l: &Ledger) -> (r: Vec<WireElement>)
    requires
        l@.wf(),
    ensures
        r@.map_values(|w: WireElement| w@) == spec_fetch(
            l@.records,
            l@.links,
            LinkBaseView::Path(spec_path_name(EntryType::Member)),
        ),
{
    let base = LinkBase::Path(path_name(EntryType::Member));
    fetch_latest(l, &base)
}

/// The join announcement this agent sends to its peers: a member-join ping
/// carrying the agent's own identity, wrapped for transport and addressed
/// to the given peer set. Deliberately separate from initialization, which
/// must not block on the network; sending is best-effort.
pub fn init_signal(l: &Ledger, peers: Vec<AgentPubKey>) -> (r: RemoteSignal)
    ensures
        r@ == (RemoteSignalView {
            signal: TransportEnvelopeView {
                payload: SignalInnerView::Member(
                    MemberSignalView {
                        entry_type: spec_path_name(EntryType::Member),
                        data: Member { address: l@.author },
                    },
                ),
            },
            agents: peers@,
        }),
{
    let member = Member { address: AgentPubKey { id: l.author.id } };
    let sig = MemberSignal { entry_type: path_name(EntryType::Member), data: member };
    let r = prepare_remote_signal(SignalInner::Member(sig), peers);
    proof {
        assert(r@ =~= (RemoteSignalView {
            signal: TransportEnvelopeView {
                payload: SignalInnerView::Member(
                    MemberSignalView {
                        entry_type: spec_path_name(EntryType::Member),
                        data: Member { address: l@.author },
                    },
                ),
            },
            agents: r@.agents,
        }));
    }
    r
}

} // verus!
