//! The collaborative protocol with every agent in one process.
//!
//! A dealer splits a secret among the agents of a topology; one of them
//! runs the protocol, and the others answer from their shares. Nothing is
//! sent, so the secret, the topology and the seed decide what a run
//! returns: what the naive protocol returns with the secret.

use crate::collaborative::{has_share, CollaborativeProtocol};
use crate::components::Amount;
use crate::date_time::{date_time_seed, CalendarDate, DateTimeRaw, Timestamp};
use crate::error::FingerprintError;
use crate::field::FieldElement;
use crate::hashing::Specs;
use crate::poseidon::state::values;
use crate::protocols::{naive_fingerprint, FingerprintProtocol, NaiveProtocol};
use crate::secret_sharing::{
    evaluate, lemma_polynomial_at_zero, lie_on, polynomial, split, SecretShare,
};
use crate::topology::AgentsTopology;
use crate::transaction::fingerprint_of_fields;
use vstd::prelude::*;

verus! {

/// The protocol of one agent, with the shares of all the agents beside it.
pub struct InProcessProtocol {
    protocol: CollaborativeProtocol,
    shares: Vec<SecretShare>,
    dealt: Ghost<Seq<nat>>,
}

/// Whether no member of a topology has an id beyond the number of shares.
pub open spec fn members_have_shares(topology: AgentsTopology) -> bool {
    forall|k: int|
        0 <= k < topology.member_ids().len() ==> #[trigger] topology.member_ids()[k]
            <= topology.spec_agents()
}

impl InProcessProtocol {
    /// The shares and the share of the agent that runs lie on the
    /// polynomial that was dealt, which has no more coefficients than the
    /// threshold, and every member has a share.
    #[verifier::type_invariant]
    pub closed spec fn well_formed(self) -> bool {
        &&& self.dealt@.len() <= self.protocol.spec_topology().spec_threshold()
        &&& lie_on(self.shares@, self.dealt@)
        &&& self.protocol.spec_share().value() == evaluate(
            self.dealt@,
            self.protocol.spec_agent_id() as nat,
        )
        &&& forall|id: u64| #[trigger]
            self.protocol.spec_topology().member_ids().contains(id) ==> has_share(self.shares@, id)
    }

    /// The secret that was dealt: the value of the polynomial at zero.
    pub closed spec fn secret(self) -> nat {
        evaluate(self.dealt@, 0)
    }

    /// The protocol of the agent that runs.
    pub closed spec fn spec_protocol(self) -> CollaborativeProtocol {
        self.protocol
    }

    /// The shares of the agents.
    pub closed spec fn spec_shares(self) -> Seq<SecretShare> {
        self.shares@
    }

    /// Deals a secret to the agents of a topology and makes the given
    /// agent the one that runs the protocol. The shares are those of
    /// `split` for the number of shares and the threshold of the topology.
    /// `InvalidInput` unless there is one coefficient less than the
    /// threshold, the agent is a member, and no member has an id beyond the
    /// number of shares.
    pub fn deal(
        secret: &FieldElement,
        coefficients: &Vec<FieldElement>,
        agent_id: u64,
        topology: AgentsTopology,
    ) -> (r: Result<InProcessProtocol, FingerprintError>)
        ensures
            r is Ok <==> coefficients.len() + 1 == topology.spec_threshold()
                && topology.member_ids().contains(agent_id) && members_have_shares(topology),
            r matches Ok(p) ==> {
                &&& p.secret() == secret.value()
                &&& p.spec_protocol().spec_topology() == topology
                &&& p.spec_protocol().spec_agent_id() == agent_id
                &&& p.spec_protocol().spec_share().value() == evaluate(
                    polynomial(secret.value(), values(coefficients@)),
                    agent_id as nat,
                )
                &&& p.spec_shares().len() == topology.spec_agents()
                &&& forall|i: int|
                    0 <= i < p.spec_shares().len() ==> (#[trigger] p.spec_shares()[i]).spec_agent_id()
                        == i + 1
                &&& lie_on(p.spec_shares(), polynomial(secret.value(), values(coefficients@)))
            },
            r matches Err(e) ==> e == FingerprintError::InvalidInput,
    {
        let n = topology.agents();
        let t = topology.threshold();
        let shares = match split(secret, n as u64, t as u64, coefficients) {
            Ok(shares) => shares,
            Err(e) => {
                return Err(e);
            },
        };
        let ghost dealt = polynomial(secret.value(), values(coefficients@));
        let members = topology.members();
        let ghost ids = topology.member_ids();
        let mut i: usize = 0;
        while i < members.len()
            invariant
                i <= members.len(),
                members@.len() == ids.len(),
                forall|k: int| 0 <= k < ids.len() ==> ids[k] == (#[trigger] members@[k]).agent_id,
                ids == topology.member_ids(),
                n == topology.spec_agents(),
                forall|k: int| 0 <= k < i ==> #[trigger] ids[k] <= n,
            decreases members.len() - i,
        {
            if members[i].agent_id > n as u64 {
                assert(ids[i as int] > n);
                return Err(FingerprintError::InvalidInput);
            }
            i += 1;
        }
        if !topology.is_member(agent_id) {
            return Err(FingerprintError::InvalidInput);
        }
        proof {
            let at = choose|k: int| 0 <= k < ids.len() && ids[k] == agent_id;
            assert(ids[at] <= n && ids[at] != 0);
        }
        let own = shares[(agent_id - 1) as usize].value();
        let protocol = match CollaborativeProtocol::new((agent_id, own), topology) {
            Ok(protocol) => protocol,
            Err(e) => {
                return Err(e);
            },
        };
        secret.canonical();
        proof {
            lemma_polynomial_at_zero(secret.value(), values(coefficients@));
            assert forall|id: u64| #[trigger] ids.contains(id) implies has_share(shares@, id) by {
                let k = choose|k: int| 0 <= k < ids.len() && ids[k] == id;
                assert(ids[k] <= n && ids[k] != 0);
                assert(shares@[id - 1].spec_agent_id() == id);
            }
        }
        Ok(InProcessProtocol { protocol, shares, dealt: Ghost(dealt) })
    }
}

impl FingerprintProtocol for InProcessProtocol {
    /// The secret and the seed decide, where there are as many members as
    /// the threshold asks for; `QuorumNotMet` where there are fewer.
    open spec fn outcome(&self, seed: FieldElement) -> Option<
        Result<FieldElement, FingerprintError>,
    > {
        if self.spec_protocol().spec_topology().spec_threshold()
            > self.spec_protocol().spec_topology().member_ids().len() {
            Some(Err(FingerprintError::QuorumNotMet))
        } else {
            Some(Ok(FieldElement::from_value(naive_fingerprint(self.secret(), seed.encoding()))))
        }
    }

    fn process(&self, specs: &Specs, seed: &FieldElement) -> (r: Result<
        FieldElement,
        FingerprintError,
    >) {
        proof {
            use_type_invariant(self);
        }
        let r = self.protocol.process_among(specs, seed, &self.shares);
        proof {
            assert(lie_on(self.shares@, self.dealt@));
            if let Ok(x) = r {
                FieldElement::lemma_from_value(x);
            }
        }
        r
    }
}

/// Threshold agreement: whichever agent runs the protocol in one process,
/// and whichever quorum it picks, it decides what the naive protocol
/// decides with the secret that was dealt.
pub proof fn lemma_agrees_with_naive(
    agents: InProcessProtocol,
    naive: NaiveProtocol,
    seed: FieldElement,
)
    requires
        naive.secret().value() == agents.secret(),
        agents.spec_protocol().spec_topology().spec_threshold()
            <= agents.spec_protocol().spec_topology().member_ids().len(),
    ensures
        agents.outcome(seed) == naive.outcome(seed),
{
}

/// What holds of a seed holds of a transaction: the fingerprint of its
/// fields under the protocol in one process is its fingerprint under the
/// naive protocol with the secret that was dealt.
pub proof fn lemma_fingerprints_agree(
    agents: InProcessProtocol,
    naive: NaiveProtocol,
    bic: Seq<char>,
    code: Seq<char>,
    amount: Amount,
    date_time: Timestamp,
    wwd: CalendarDate,
)
    requires
        naive.secret().value() == agents.secret(),
        agents.spec_protocol().spec_topology().spec_threshold()
            <= agents.spec_protocol().spec_topology().member_ids().len(),
    ensures
        fingerprint_of_fields(&agents, bic, code, amount, date_time, wwd) == fingerprint_of_fields(
            &naive,
            bic,
            code,
            amount,
            date_time,
            wwd,
        ),
        fingerprint_of_fields(&agents, bic, code, amount, date_time, wwd) is Some,
{
    match date_time_seed(DateTimeRaw::new_spec(date_time, wwd, amount)) {
        Some(seed) => {
            lemma_agrees_with_naive(agents, naive, FieldElement::from_value(seed));
        },
        None => {},
    }
}

} // verus!
