use crate::entries::{Member, WireElement, WireElementView};
use crate::hashes::AgentPubKey;
use vstd::prelude::*;

verus! {

/// Which operation a change signal announces.
#[derive(Clone, Copy, PartialEq, Eq, Structural, Debug)]
pub enum ActionType {
    Create,
    Update,
    Delete,
}

/// The domain signal: which record type changed, how, and the resulting
/// wire element.
#[derive(Debug)]
pub struct SignalEnvelope {
    pub entry_type: String,
    pub action: ActionType,
    pub data: WireElement,
}

/// A member-join ping: an agent announcing that it joined the project.
#[derive(Debug)]
pub struct MemberSignal {
    pub entry_type: String,
    pub data: Member,
}

/// The domain signals the engine emits, before transport wrapping.
#[derive(Debug)]
pub enum SignalInner {
    Entry(SignalEnvelope),
    Member(MemberSignal),
}

/// The transport layer's envelope around an already-encoded domain signal.
/// The two layers are deliberately independent: the receiving side decodes
/// the transport envelope before the domain signal, so transport framing can
/// change without touching the signal schema. In deployment the substrate
/// serializes each layer separately; the model keeps them as two nested
/// values.
#[derive(Debug)]
pub struct TransportEnvelope {
    pub payload: SignalInner,
}

/// A prepared point-to-point notification: the wrapped signal and the peer
/// set it is addressed to. Sending is the substrate's work and best-effort;
/// failure to reach a peer never invalidates the committed local write.
#[derive(Debug)]
pub struct RemoteSignal {
    pub signal: TransportEnvelope,
    pub agents: Vec<AgentPubKey>,
}

// --- mathematical views ---

/// Mathematical model of a domain signal.
#[verifier::ext_equal]
pub struct SignalEnvelopeView {
    pub entry_type: Seq<char>,
    pub action: ActionType,
    pub data: WireElementView,
}

/// Mathematical model of a member-join ping.
#[verifier::ext_equal]
pub struct MemberSignalView {
    pub entry_type: Seq<char>,
    pub data: Member,
}

/// Mathematical model of a domain signal before transport wrapping.
#[verifier::ext_equal]
pub enum SignalInnerView {
    Entry(SignalEnvelopeView),
    Member(MemberSignalView),
}

/// Mathematical model of a transport envelope.
#[verifier::ext_equal]
pub struct TransportEnvelopeView {
    pub payload: SignalInnerView,
}

/// Mathematical model of a prepared notification.
#[verifier::ext_equal]
pub struct RemoteSignalView {
    pub signal: TransportEnvelopeView,
    pub agents: Seq<AgentPubKey>,
}

impl View for SignalEnvelope {
    type V = SignalEnvelopeView;

    open spec fn view(&self) -> SignalEnvelopeView {
        SignalEnvelopeView { entry_type: self.entry_type@, action: self.action, data: self.data@ }
    }
}

impl View for MemberSignal {
    type V = MemberSignalView;

    open spec fn view(&self) -> MemberSignalView {
        MemberSignalView { entry_type: self.entry_type@, data: self.data }
    }
}

impl View for SignalInner {
    type V = SignalInnerView;

    open spec fn view(&self) -> SignalInnerView {
        match self {
            SignalInner::Entry(e) => SignalInnerView::Entry(e@),
            SignalInner::Member(m) => SignalInnerView::Member(m@),
        }
    }
}

impl View for TransportEnvelope {
    type V = TransportEnvelopeView;

    open spec fn view(&self) -> TransportEnvelopeView {
        TransportEnvelopeView { payload: self.payload@ }
    }
}

impl View for RemoteSignal {
    type V = RemoteSignalView;

    open spec fn view(&self) -> RemoteSignalView {
        RemoteSignalView { signal: self.signal@, agents: self.agents@ }
    }
}

// --- the two encoding layers ---

/// Wraps a domain signal in the transport envelope: the second, outer
/// encoding layer.
pub fn wrap_signal(s: SignalInner) -> (r: TransportEnvelope)
    ensures
        r@.payload == s@,
{
    TransportEnvelope { payload: s }
}

/// Undoes the transport wrapping, yielding the domain signal.
pub fn unwrap_signal(t: TransportEnvelope) -> (r: SignalInner)
    ensures
        r@ == t@.payload,
{
    t.payload
}

/// The two layers are inverse: a receiver that unwraps what a sender
/// wrapped reads exactly the domain signal that was sent.
pub proof fn lemma_transport_round_trip(s: SignalInnerView)
    ensures
        (TransportEnvelopeView { payload: s }).payload == s,
{
}

/// The notification the engine hands to the substrate after a successful
/// operation: the wrapped signal, addressed to the caller-supplied peer
/// set. How the peer set is produced is the caller's policy; the engine is
/// agnostic to it.
pub fn prepare_remote_signal(s: SignalInner, peers: Vec<AgentPubKey>) -> (r: RemoteSignal)
    ensures
        r@.signal.payload == s@,
        r@.agents == peers@,
{
    RemoteSignal { signal: wrap_signal(s), agents: peers }
}

} // verus!
