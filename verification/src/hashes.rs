use vstd::prelude::*;

verus! {

/// An agent's identity on the network.
///
/// The substrate derives it from the agent's cryptographic signing key; the
/// engine never looks inside it, so it is modeled as an opaque, totally
/// ordered identifier. The order is used only as the final step of the
/// deterministic tie-break between concurrent chain tips.
#[derive(Clone, Copy, PartialEq, Eq, Structural, Debug)]
pub struct AgentPubKey {
    pub id: u64,
}

impl AgentPubKey {
    pub fn new(id: u64) -> (r: AgentPubKey)
        ensures
            r.id == id,
    {
        AgentPubKey { id }
    }
}

/// An exact copy of a peer list.
pub fn clone_agents(v: &Vec<AgentPubKey>) -> (r: Vec<AgentPubKey>)
    ensures
        r@ == v@,
{
    let n = v.len();
    let mut out: Vec<AgentPubKey> = Vec::new();
    let mut i: usize = 0;
    while i < n
        invariant
            n == v@.len(),
            i <= n,
            out@ == v@.take(i as int),
        decreases n - i,
    {
        out.push(v[i]);
        proof {
            assert(out@ =~= v@.take(i as int + 1));
        }
        i += 1;
    }
    proof {
        assert(v@.take(n as int) =~= v@);
    }
    out
}

} // verus!
