//! The configuration of an agent, as plain values.

use crate::error::FingerprintError;
use vstd::prelude::*;

verus! {

/// A light agent: its id and its share of the secret in compact form.
#[derive(Debug)]
pub struct AgentConfig {
    pub agent_id: usize,
    pub secret_shard: String,
}

/// Where another agent can be reached.
#[derive(Debug)]
pub struct AgentReferenceConfig {
    pub agent_id: usize,
    pub address: String,
}

/// Where a gRPC server listens.
#[derive(Debug)]
pub struct GrpcConfig {
    pub host: String,
    pub port: u16,
}

/// An agent that cooperates with others: `threshold` of `agents` shares
/// rebuild the secret.
#[derive(Debug)]
pub struct CooperativeTopologyConfig {
    pub agent_id: usize,
    pub secret_shard: String,
    pub agents: usize,
    pub threshold: usize,
    pub members: Vec<AgentReferenceConfig>,
}

/// An agent that holds the whole secret, in compact form.
#[derive(Debug)]
pub struct NaiveTopologyConfig {
    pub secret: String,
}

/// The two modes of the fingerprint service.
#[derive(Debug)]
pub enum FingerprintServiceConfig {
    Cooperative(CooperativeTopologyConfig),
    Naive(NaiveTopologyConfig),
}

/// The ids of the members, in the order of the list.
pub open spec fn member_ids(members: Seq<AgentReferenceConfig>) -> Seq<usize> {
    Seq::new(members.len(), |i: int| members[i].agent_id)
}

impl CooperativeTopologyConfig {
    /// What a cooperative configuration has to meet: the threshold is at
    /// least one and at most the number of agents, and this agent is among
    /// the members.
    pub open spec fn is_consistent(&self) -> bool {
        &&& 1 <= self.threshold <= self.agents
        &&& member_ids(self.members@).contains(self.agent_id)
    }

    /// Checks the configuration.
    pub fn validate(&self) -> (r: Result<(), FingerprintError>)
        ensures
            r is Ok <==> self.is_consistent(),
            r is Err ==> r == Err::<(), FingerprintError>(FingerprintError::InvalidInput),
    {
        if self.threshold < 1 || self.threshold > self.agents {
            return Err(FingerprintError::InvalidInput);
        }
        let ghost ids = member_ids(self.members@);
        let mut i: usize = 0;
        while i < self.members.len()
            invariant
                i <= self.members.len(),
                ids == member_ids(self.members@),
                1 <= self.threshold <= self.agents,
                forall|k: int| 0 <= k < i ==> ids[k] != self.agent_id,
            decreases self.members.len() - i,
        {
            if self.members[i].agent_id == self.agent_id {
                assert(ids[i as int] == self.agent_id);
                return Ok(());
            }
            i += 1;
        }
        Err(FingerprintError::InvalidInput)
    }
}

} // verus!
