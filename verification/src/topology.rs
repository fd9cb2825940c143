//! The agents that share a secret, and the quorum that one of them asks.

use crate::error::FingerprintError;
use crate::secret_sharing::all_distinct;
use vstd::prelude::*;

verus! {

/// An agent and where it can be reached.
#[derive(Debug)]
pub struct AgentEndpoint {
    pub agent_id: u64,
    pub endpoint: String,
}

/// The ids of a list of agents.
pub open spec fn endpoint_ids(members: Seq<AgentEndpoint>) -> Seq<u64> {
    Seq::new(members.len(), |i: int| members[i].agent_id)
}

/// Whether every number of the row is below the next.
pub open spec fn strictly_ascending(ids: Seq<u64>) -> bool {
    forall|i: int, j: int| 0 <= i < j < ids.len() ==> ids[i] < ids[j]
}

/// Whether no id is zero.
pub open spec fn all_nonzero(ids: Seq<u64>) -> bool {
    forall|i: int| 0 <= i < ids.len() ==> ids[i] != 0
}

/// The agents that share a secret: who they are, how many shares were
/// issued and how many rebuild the secret.
#[derive(Debug)]
pub struct AgentsTopology {
    members: Vec<AgentEndpoint>,
    agents: usize,
    threshold: usize,
}

impl AgentsTopology {
    /// The threshold is at least one and at most the number of shares; the
    /// ids are distinct and none is zero.
    #[verifier::type_invariant]
    pub closed spec fn well_formed(self) -> bool {
        &&& 1 <= self.threshold <= self.agents
        &&& all_distinct(endpoint_ids(self.members@))
        &&& all_nonzero(endpoint_ids(self.members@))
    }

    /// The ids of the members, in the order they were given.
    pub closed spec fn member_ids(self) -> Seq<u64> {
        endpoint_ids(self.members@)
    }

    pub closed spec fn spec_agents(self) -> usize {
        self.agents
    }

    pub closed spec fn spec_threshold(self) -> usize {
        self.threshold
    }

    /// The topology of the given members. `InvalidInput` unless the
    /// threshold is at least one and at most the number of shares, and the
    /// ids are distinct and not zero.
    pub fn new(agents: usize, threshold: usize, members: Vec<AgentEndpoint>) -> (r: Result<
        AgentsTopology,
        FingerprintError,
    >)
        ensures
            r is Ok <==> 1 <= threshold <= agents && all_distinct(endpoint_ids(members@))
                && all_nonzero(endpoint_ids(members@)),
            r matches Ok(t) ==> t.member_ids() == endpoint_ids(members@) && t.spec_agents()
                == agents && t.spec_threshold() == threshold,
            r matches Err(e) ==> e == FingerprintError::InvalidInput,
    {
        if threshold < 1 || threshold > agents {
            return Err(FingerprintError::InvalidInput);
        }
        let ghost ids = endpoint_ids(members@);
        let mut i: usize = 0;
        while i < members.len()
            invariant
                i <= members.len(),
                ids == endpoint_ids(members@),
                forall|a: int| 0 <= a < i ==> ids[a] != 0,
                forall|a: int, b: int| 0 <= a < i && 0 <= b < a ==> ids[a] != ids[b],
            decreases members.len() - i,
        {
            if members[i].agent_id == 0 {
                assert(ids[i as int] == 0);
                return Err(FingerprintError::InvalidInput);
            }
            let mut j: usize = 0;
            while j < i
                invariant
                    j <= i,
                    i < members.len(),
                    ids == endpoint_ids(members@),
                    forall|b: int| 0 <= b < j ==> ids[i as int] != ids[b],
                decreases i - j,
            {
                if members[j].agent_id == members[i].agent_id {
                    assert(ids[j as int] == ids[i as int]);
                    return Err(FingerprintError::InvalidInput);
                }
                j += 1;
            }
            i += 1;
        }
        assert forall|a: int, b: int|
            0 <= a < ids.len() && 0 <= b < ids.len() && a != b implies ids[a] != ids[b] by {
            if b < a {
                assert(ids[a] != ids[b]);
            } else {
                assert(ids[b] != ids[a]);
            }
        }
        Ok(AgentsTopology { members, agents, threshold })
    }

    /// The number of shares that were issued.
    pub fn agents(&self) -> (n: usize)
        ensures
            n == self.spec_agents(),
    {
        self.agents
    }

    /// The number of shares that rebuild the secret.
    pub fn threshold(&self) -> (t: usize)
        ensures
            t == self.spec_threshold(),
            1 <= t <= self.spec_agents(),
    {
        proof {
            use_type_invariant(self);
        }
        self.threshold
    }

    /// The members.
    pub fn members(&self) -> (r: &Vec<AgentEndpoint>)
        ensures
            endpoint_ids(r@) == self.member_ids(),
            all_distinct(self.member_ids()),
            all_nonzero(self.member_ids()),
    {
        proof {
            use_type_invariant(self);
        }
        &self.members
    }

    /// Whether an agent is a member.
    pub fn is_member(&self, agent_id: u64) -> (b: bool)
        ensures
            b == self.member_ids().contains(agent_id),
    {
        let mut i: usize = 0;
        while i < self.members.len()
            invariant
                i <= self.members.len(),
                forall|k: int| 0 <= k < i ==> self.member_ids()[k] != agent_id,
            decreases self.members.len() - i,
        {
            if self.members[i].agent_id == agent_id {
                assert(self.member_ids()[i as int] == agent_id);
                return true;
            }
            i += 1;
        }
        false
    }

    /// The ids of the members from the smallest to the largest.
    pub fn sorted_ids(&self) -> (r: Vec<u64>)
        ensures
            strictly_ascending(r@),
            r.len() == self.member_ids().len(),
            forall|x: u64| r@.contains(x) <==> self.member_ids().contains(x),
    {
        proof {
            use_type_invariant(self);
        }
        let ghost ids = self.member_ids();
        let mut out: Vec<u64> = Vec::new();
        let mut i: usize = 0;
        while i < self.members.len()
            invariant
                i <= self.members.len(),
                ids == self.member_ids(),
                ids.len() == self.members.len(),
                all_distinct(ids),
                strictly_ascending(out@),
                out.len() == i,
                forall|x: u64| out@.contains(x) <==> ids.subrange(0, i as int).contains(x),
            decreases self.members.len() - i,
        {
            let x = self.members[i].agent_id;
            proof {
                assert(ids[i as int] == x);
                if out@.contains(x) {
                    let k = choose|k: int|
                        0 <= k < i && ids.subrange(0, i as int)[k] == x;
                    assert(ids[k] == ids[i as int]);
                }
            }
            let ghost before = out@;
            out = insert_ascending(&out, x);
            proof {
                assert forall|y: u64| out@.contains(y) <==> ids.subrange(0, i + 1).contains(
                    y,
                ) by {
                    let longer = ids.subrange(0, i + 1);
                    let shorter = ids.subrange(0, i as int);
                    if longer.contains(y) {
                        let k = choose|k: int| 0 <= k < longer.len() && longer[k] == y;
                        if k < i {
                            assert(shorter[k] == y);
                        }
                    }
                    if before.contains(y) {
                        let k = choose|k: int| 0 <= k < shorter.len() && shorter[k] == y;
                        assert(longer[k] == y);
                    }
                    if y == x {
                        assert(longer[i as int] == y);
                    }
                }
            }
            i += 1;
        }
        assert(ids.subrange(0, ids.len() as int) =~= ids);
        out
    }

    /// The quorum of an agent that is a member: the ids of as many agents
    /// as the threshold asks for, from the smallest to the largest. They
    /// are the smallest ids of all, but that the agent itself takes the
    /// place of the largest of them where it is not among them.
    /// `QuorumNotMet` where there are fewer members than the threshold,
    /// `InvalidInput` for an agent that is not a member.
    pub fn quorum(&self, self_id: u64) -> (r: Result<Vec<u64>, FingerprintError>)
        ensures
            r is Ok <==> self.spec_threshold() <= self.member_ids().len()
                && self.member_ids().contains(self_id),
            r matches Err(e) ==> e == (if self.spec_threshold() > self.member_ids().len() {
                FingerprintError::QuorumNotMet
            } else {
                FingerprintError::InvalidInput
            }),
            r matches Ok(q) ==> is_quorum(
                q@,
                self_id,
                self.member_ids(),
                self.spec_threshold() as int,
            ),
    {
        proof {
            use_type_invariant(self);
        }
        let t = self.threshold;
        if self.members.len() < t {
            return Err(FingerprintError::QuorumNotMet);
        }
        if !self.is_member(self_id) {
            return Err(FingerprintError::InvalidInput);
        }
        let sorted = self.sorted_ids();
        let ghost ids = self.member_ids();
        let mut q: Vec<u64> = Vec::new();
        let mut found = false;
        let mut i: usize = 0;
        while i < t
            invariant
                i <= t,
                t <= sorted.len(),
                q@ == sorted@.subrange(0, i as int),
                found == sorted@.subrange(0, i as int).contains(self_id),
            decreases t - i,
        {
            let ghost before = sorted@.subrange(0, i as int);
            q.push(sorted[i]);
            if sorted[i] == self_id {
                found = true;
            }
            proof {
                let after = sorted@.subrange(0, i + 1);
                assert(q@ =~= after);
                assert(after[i as int] == sorted@[i as int]);
                if before.contains(self_id) {
                    let k = choose|k: int| 0 <= k < before.len() && before[k] == self_id;
                    assert(after[k] == self_id);
                }
                if after.contains(self_id) && sorted@[i as int] != self_id {
                    let k = choose|k: int| 0 <= k < after.len() && after[k] == self_id;
                    assert(before[k] == self_id);
                }
            }
            i += 1;
        }
        let ghost first = sorted@.subrange(0, t as int);
        if !found {
            q.set(t - 1, self_id);
            proof {
                // the agent is a member, so it is in the sorted row, after
                // the first ones
                assert(sorted@.contains(self_id));
                let at = choose|k: int| 0 <= k < sorted@.len() && sorted@[k] == self_id;
                if at < t {
                    assert(first[at] == self_id);
                }
                assert(at >= t);
                assert(q@ =~= sorted@.subrange(0, t - 1).push(self_id));
                assert forall|a: int, b: int| 0 <= a < b < q@.len() implies q@[a] < q@[b] by {
                    if b == t - 1 {
                        assert(sorted@[a] < sorted@[at]);
                    }
                }
                assert(q@[t - 1] == self_id);
                assert forall|k: int| 0 <= k < q@.len() implies ids.contains(#[trigger] q@[k]) by {
                    if k < t - 1 {
                        assert(sorted@[k] == q@[k]);
                        assert(sorted@.contains(q@[k]));
                    }
                }
                assert forall|x: u64, k: int|
                    #![trigger ids.contains(x), q@[k]]
                    ids.contains(x) && !q@.contains(x) && 0 <= k < q@.len() && q@[k]
                        != self_id implies q@[k] < x by {
                    assert(sorted@.contains(x));
                    let p = choose|p: int| 0 <= p < sorted@.len() && sorted@[p] == x;
                    if p < t - 1 {
                        assert(q@[p] == x);
                    }
                    assert(k < t - 1);
                    if k < p {
                        assert(sorted@[k] < sorted@[p]);
                    }
                }
            }
        } else {
            proof {
                assert(q@ =~= first);
                let at = choose|k: int| 0 <= k < first.len() && first[k] == self_id;
                assert(q@[at] == self_id);
                assert forall|a: int, b: int| 0 <= a < b < q@.len() implies q@[a] < q@[b] by {
                    assert(sorted@[a] < sorted@[b]);
                }
                assert forall|k: int| 0 <= k < q@.len() implies ids.contains(#[trigger] q@[k]) by {
                    assert(sorted@[k] == q@[k]);
                    assert(sorted@.contains(q@[k]));
                }
                assert forall|x: u64, k: int|
                    #![trigger ids.contains(x), q@[k]]
                    ids.contains(x) && !q@.contains(x) && 0 <= k < q@.len() && q@[k]
                        != self_id implies q@[k] < x by {
                    assert(sorted@.contains(x));
                    let p = choose|p: int| 0 <= p < sorted@.len() && sorted@[p] == x;
                    if p < t {
                        assert(q@[p] == x);
                    }
                    assert(sorted@[k] < sorted@[p]);
                }
            }
        }
        Ok(q)
    }
}

/// What makes a row of ids the quorum of an agent among the members for a
/// threshold: it has as many ids as the threshold says, in ascending
/// order; the agent is one of them; all are members; and a member that is
/// left out is larger than every id of the quorum but the agent's own.
pub open spec fn is_quorum(q: Seq<u64>, self_id: u64, members: Seq<u64>, threshold: int) -> bool {
    &&& q.len() == threshold
    &&& strictly_ascending(q)
    &&& q.contains(self_id)
    &&& forall|k: int| 0 <= k < q.len() ==> members.contains(#[trigger] q[k])
    &&& forall|x: u64, k: int|
        #![trigger members.contains(x), q[k]]
        members.contains(x) && !q.contains(x) && 0 <= k < q.len() && q[k] != self_id ==> q[k] < x
}

/// An ascending row with one more number put in its place.
fn insert_ascending(row: &Vec<u64>, x: u64) -> (r: Vec<u64>)
    requires
        strictly_ascending(row@),
        !row@.contains(x),
    ensures
        strictly_ascending(r@),
        r.len() == row.len() + 1,
        forall|y: u64| r@.contains(y) <==> (row@.contains(y) || y == x),
{
    let mut out: Vec<u64> = Vec::new();
    let mut i: usize = 0;
    while i < row.len() && row[i] < x
        invariant
            i <= row.len(),
            out@ == row@.subrange(0, i as int),
            forall|k: int| 0 <= k < i ==> row[k] < x,
        decreases row.len() - i,
    {
        out.push(row[i]);
        assert(out@ =~= row@.subrange(0, i + 1));
        i += 1;
    }
    let split = i;
    out.push(x);
    proof {
        if split < row.len() {
            assert(row@[split as int] != x) by {
                if row@[split as int] == x {
                    assert(row@.contains(x));
                }
            }
        }
    }
    while i < row.len()
        invariant
            split <= i <= row.len(),
            out.len() == i + 1,
            forall|k: int| 0 <= k < split ==> out[k] == row[k] && row[k] < x,
            out[split as int] == x,
            forall|k: int| split <= k < i ==> out[k + 1] == row[k],
            split < row.len() ==> row[split as int] > x,
        decreases row.len() - i,
    {
        out.push(row[i]);
        i += 1;
    }
    proof {
        assert forall|a: int, b: int| 0 <= a < b < out@.len() implies out@[a] < out@[b] by {
            if b < split {
                assert(row@[a] < row@[b]);
            } else if b == split {
            } else if a < split {
                assert(row@[split as int] <= row@[b - 1]) by {
                    if split < b - 1 {
                        assert(row@[split as int] < row@[b - 1]);
                    }
                }
            } else if a == split {
                assert(row@[split as int] <= row@[b - 1]) by {
                    if split < b - 1 {
                        assert(row@[split as int] < row@[b - 1]);
                    }
                }
            } else {
                assert(row@[a - 1] < row@[b - 1]);
            }
        }
        assert forall|y: u64| out@.contains(y) <==> (row@.contains(y) || y == x) by {
            if out@.contains(y) {
                let k = choose|k: int| 0 <= k < out@.len() && out@[k] == y;
                if k < split {
                    assert(row@[k] == y);
                } else if k > split {
                    assert(row@[k - 1] == y);
                }
            }
            if row@.contains(y) {
                let k = choose|k: int| 0 <= k < row@.len() && row@[k] == y;
                if k < split {
                    assert(out@[k] == y);
                } else {
                    assert(out@[k + 1] == y);
                }
            }
            if y == x {
                assert(out@[split as int] == y);
            }
        }
    }
    out
}

} // verus!
