//! The collaborative protocol: an agent that holds one share of the secret
//! asks the other agents of its quorum for their parts and adds them up.
//!
//! What the agent decides is here, as a run that takes events in and says
//! what to do next; what it sends and receives is the caller's to carry.

use crate::curve::{
    adds_multiples, g1_add, g1_decoding, seed_point, g1_scalar_mul, point_digest,
    CurvePoint,
};
use crate::error::FingerprintError;
use crate::field::{fadd, fmul, modulus, FieldElement};
use crate::hashing::{HashSqueeze, Specs};
use crate::interpolation::{
    differences_invertible, evaluations, lemma_interpolation_at_zero,
};
use crate::poseidon::matrix::dot;
use crate::poseidon::state::values;
use crate::protocols::{cooperate, naive_fingerprint};
use crate::secret_sharing::{
    all_distinct, evaluate, lagrange_coefficients, lagrange_coefficients_at_zero, lie_on,
    lemma_points_canonical, points_of, SecretShare,
};
use crate::topology::{is_quorum, AgentsTopology};
use vstd::prelude::*;

verus! {

/// What is sent to one agent of the quorum: the point to multiply and the
/// agent's Lagrange coefficient.
#[derive(Clone, Copy, Debug)]
pub struct CooperationRequest {
    pub agent_id: u64,
    pub point: CurvePoint,
    pub coefficient: FieldElement,
}

/// What happens to a run of the collaborative protocol.
#[derive(Clone, Copy, Debug)]
pub enum ProtocolEvent {
    /// The run starts, or asks again what to do.
    Start,
    /// The agent that was asked last has answered.
    Reply(CurvePoint),
    /// The agent that was asked last has not answered.
    NoReply,
}

/// What a run of the collaborative protocol asks its caller to do.
#[derive(Clone, Copy, Debug)]
pub enum ProtocolAction {
    /// Send the request and come back with the answer.
    Ask(CooperationRequest),
    /// The run is over; this is its result.
    Done(FieldElement),
    /// The run has failed.
    Failed(FingerprintError),
}

/// A run of the collaborative protocol: the requests to the other agents
/// of the quorum, how many of them are answered, and the sum of this
/// agent's part and the answers so far.
#[derive(Debug)]
pub struct CollaborativeSession {
    agent_id: u64,
    requests: Vec<CooperationRequest>,
    answered: usize,
    accumulated: CurvePoint,
    failure: Option<FingerprintError>,
}

/// A run as plain values.
pub struct SessionView {
    pub agent_ids: Seq<u64>,
    pub answered: int,
    pub accumulated: Seq<u8>,
    pub failure: Option<FingerprintError>,
}

/// What a run in the given state asks for.
pub open spec fn pending_action(view: SessionView) -> ActionView {
    match view.failure {
        Some(e) => ActionView::Failed(e),
        None => if view.answered < view.agent_ids.len() {
            ActionView::Ask(view.agent_ids[view.answered])
        } else {
            ActionView::Done(point_digest(view.accumulated))
        },
    }
}

/// An action as plain values.
pub enum ActionView {
    Ask(u64),
    Done(nat),
    Failed(FingerprintError),
}

/// The state that an event leaves a run in. An answer is added to the sum
/// and the next agent is up. A missing answer fails the run for good. A
/// run that is over or has failed stays as it is.
pub open spec fn next_state(view: SessionView, event: ProtocolEvent) -> SessionView {
    if view.failure is Some || view.answered >= view.agent_ids.len() {
        view
    } else {
        match event {
            ProtocolEvent::Start => view,
            ProtocolEvent::Reply(point) => SessionView {
                answered: view.answered + 1,
                accumulated: g1_add(view.accumulated, point.encoding()),
                ..view
            },
            ProtocolEvent::NoReply => SessionView {
                failure: Some(FingerprintError::AgentUnavailable(view.agent_ids[view.answered])),
                ..view
            },
        }
    }
}

/// The ids that a row of requests goes to.
pub open spec fn request_ids(requests: Seq<CooperationRequest>) -> Seq<u64> {
    Seq::new(requests.len(), |i: int| requests[i].agent_id)
}

impl View for CollaborativeSession {
    type V = SessionView;

    closed spec fn view(&self) -> SessionView {
        SessionView {
            agent_ids: request_ids(self.requests@),
            answered: self.answered as int,
            accumulated: self.accumulated.encoding(),
            failure: self.failure,
        }
    }
}

impl CollaborativeSession {
    /// No more requests are answered than there are.
    #[verifier::type_invariant]
    pub closed spec fn well_formed(self) -> bool {
        self.answered <= self.requests.len()
    }

    /// The requests of the run, in the order they are made.
    pub closed spec fn requests(self) -> Seq<CooperationRequest> {
        self.requests@
    }

    /// The agents whose parts the run adds up, in the order it adds them:
    /// the agent of the run first, then the agents it asks.
    pub closed spec fn order(self) -> Seq<u64> {
        seq![self.agent_id] + request_ids(self.requests@)
    }

    /// Takes an event in and says what to do next. An answer that is added
    /// to the sum keeps it a multiple of the point that the sum and the
    /// answer are multiples of.
    pub fn advance(&mut self, specs: &Specs, event: ProtocolEvent) -> (action: ProtocolAction)
        ensures
            final(self)@ == next_state(old(self)@, event),
            final(self).requests() == old(self).requests(),
            final(self).order() == old(self).order(),
            match action {
                ProtocolAction::Ask(request) => pending_action(final(self)@) == ActionView::Ask(
                    request.agent_id,
                ) && request == final(self).requests()[final(self)@.answered],
                ProtocolAction::Done(x) => pending_action(final(self)@) == ActionView::Done(
                    x.value(),
                ),
                ProtocolAction::Failed(e) => pending_action(final(self)@) == ActionView::Failed(e),
            },
            event matches ProtocolEvent::Reply(point) ==> (old(self)@.failure is None && old(
                self,
            )@.answered < old(self)@.agent_ids.len() ==> adds_multiples(
                old(self)@.accumulated,
                point.encoding(),
                final(self)@.accumulated,
            )),
    {
        proof {
            use_type_invariant(&*self);
        }
        if self.failure.is_none() && self.answered < self.requests.len() {
            match event {
                ProtocolEvent::Start => {},
                ProtocolEvent::Reply(point) => {
                    let sum = self.accumulated.add(&point);
                    self.accumulated = sum;
                    self.answered = self.answered + 1;
                },
                ProtocolEvent::NoReply => {
                    let agent_id = self.requests[self.answered].agent_id;
                    self.failure = Some(FingerprintError::AgentUnavailable(agent_id));
                },
            }
        }
        match self.failure {
            Some(e) => ProtocolAction::Failed(e),
            None => {
                if self.answered < self.requests.len() {
                    ProtocolAction::Ask(self.requests[self.answered])
                } else {
                    match self.accumulated.squeeze(specs) {
                        Ok(x) => ProtocolAction::Done(x),
                        Err(e) => ProtocolAction::Failed(e),
                    }
                }
            },
        }
    }
}

/// The order in which a run adds up the parts of a quorum: the agent of
/// the run first, then the others from the smallest id to the largest.
pub open spec fn session_order(q: Seq<u64>, own: int) -> Seq<u64> {
    seq![q[own]] + q.remove(own)
}

/// The protocol of an agent that holds one share of the secret.
#[derive(Debug)]
pub struct CollaborativeProtocol {
    agent_id: u64,
    share: FieldElement,
    topology: AgentsTopology,
}

impl CollaborativeProtocol {
    /// The agent is a member of its topology.
    #[verifier::type_invariant]
    pub closed spec fn well_formed(self) -> bool {
        self.topology.member_ids().contains(self.agent_id)
    }

    pub closed spec fn spec_agent_id(self) -> u64 {
        self.agent_id
    }

    pub closed spec fn spec_share(self) -> FieldElement {
        self.share
    }

    pub closed spec fn spec_topology(self) -> AgentsTopology {
        self.topology
    }

    /// The protocol of the agent with the given id and share.
    /// `InvalidInput` unless the agent is a member of the topology.
    pub fn new(self_share: (u64, FieldElement), topology: AgentsTopology) -> (r: Result<
        CollaborativeProtocol,
        FingerprintError,
    >)
        ensures
            r is Ok <==> topology.member_ids().contains(self_share.0),
            r matches Ok(p) ==> p.spec_agent_id() == self_share.0 && p.spec_share() == self_share.1
                && p.spec_topology() == topology,
            r matches Err(e) ==> e == FingerprintError::InvalidInput,
    {
        if topology.is_member(self_share.0) {
            Ok(CollaborativeProtocol { agent_id: self_share.0, share: self_share.1, topology })
        } else {
            Err(FingerprintError::InvalidInput)
        }
    }

    /// The topology of the agent.
    pub fn topology(&self) -> (r: &AgentsTopology)
        ensures
            *r == self.spec_topology(),
    {
        &self.topology
    }

    /// Starts a run for a seed. The seed is hashed to the curve and the
    /// quorum is chosen. The run starts from this agent's own part, and
    /// holds one request for every other agent of the quorum, in ascending
    /// order of the ids, each with the agent's Lagrange coefficient among
    /// the quorum. `QuorumNotMet` where there are fewer members than the
    /// threshold.
    pub fn begin(&self, seed: &FieldElement) -> (r: Result<CollaborativeSession, FingerprintError>)
        ensures
            r is Ok <==> self.spec_topology().spec_threshold()
                <= self.spec_topology().member_ids().len(),
            r matches Err(e) ==> e == FingerprintError::QuorumNotMet,
            r matches Ok(session) ==> {
                let order = session.order();
                let coefficients = lagrange_coefficients_at_zero(points_of(order));
                let point = seed_point(seed.encoding());
                &&& exists|q: Seq<u64>, own: int|
                    #![trigger session_order(q, own)]
                    is_quorum(
                        q,
                        self.spec_agent_id(),
                        self.spec_topology().member_ids(),
                        self.spec_topology().spec_threshold() as int,
                    ) && 0 <= own < q.len() && q[own] == self.spec_agent_id() && order
                        == session_order(q, own)
                &&& order.len() == self.spec_topology().spec_threshold()
                &&& order[0] == self.spec_agent_id()
                &&& all_distinct(order)
                &&& differences_invertible(points_of(order))
                &&& session@.agent_ids == order.skip(1)
                &&& session@.answered == 0
                &&& session@.failure is None
                &&& session@.accumulated == g1_scalar_mul(
                    point,
                    fmul(coefficients[0], self.spec_share().value()),
                )
                &&& g1_decoding(point) == Some(point)
                &&& forall|k: int|
                    0 <= k < order.len() - 1 ==> (#[trigger] session.requests()[k]).point.encoding()
                        == point && session.requests()[k].coefficient.value() == coefficients[k
                        + 1] && session.requests()[k].agent_id == order[k + 1]
            },
    {
        proof {
            use_type_invariant(self);
        }
        let quorum = match self.topology.quorum(self.agent_id) {
            Ok(q) => q,
            Err(e) => {
                return Err(e);
            },
        };
        let ghost q = quorum@;
        // the agent first, then the others
        let mut order: Vec<u64> = Vec::new();
        order.push(self.agent_id);
        let mut own: Option<usize> = None;
        let mut i: usize = 0;
        while i < quorum.len()
            invariant
                i <= quorum.len(),
                q == quorum@,
                own is None ==> forall|k: int| 0 <= k < i ==> q[k] != self.agent_id,
                own matches Some(at) ==> at < i && q[at as int] == self.agent_id,
                order@ == seq![self.agent_id] + (if own is Some {
                    q.take(i as int).remove(own->0 as int)
                } else {
                    q.take(i as int)
                }),
                forall|a: int, b: int| 0 <= a < b < q.len() ==> q[a] < q[b],
            decreases quorum.len() - i,
        {
            let ghost before = order@;
            if quorum[i] == self.agent_id {
                proof {
                    if own is Some {
                        assert(q[own->0 as int] < q[i as int]);
                    }
                    assert(q.take(i + 1).remove(i as int) =~= q.take(i as int));
                }
                own = Some(i);
            } else {
                order.push(quorum[i]);
                proof {
                    if own is Some {
                        assert(q.take(i + 1).remove(own->0 as int) =~= q.take(i as int).remove(
                            own->0 as int,
                        ).push(q[i as int]));
                    } else {
                        assert(q.take(i + 1) =~= q.take(i as int).push(q[i as int]));
                    }
                    assert(order@ =~= before.push(q[i as int]));
                }
            }
            i += 1;
        }
        let at = match own {
            Some(at) => at,
            None => {
                proof {
                    let k = choose|k: int| 0 <= k < q.len() && q[k] == self.agent_id;
                    assert(q[k] != self.agent_id);
                }
                return Err(FingerprintError::Internal);
            },
        };
        proof {
            assert(q.take(q.len() as int) =~= q);
            assert(order@ =~= session_order(q, at as int));
            assert forall|a: int, b: int|
                0 <= a < order@.len() && 0 <= b < order@.len() && a != b implies order@[a]
                != order@[b] by {
                let ia = if a == 0 {
                    at as int
                } else if a - 1 < at {
                    a - 1
                } else {
                    a
                };
                let ib = if b == 0 {
                    at as int
                } else if b - 1 < at {
                    b - 1
                } else {
                    b
                };
                assert(order@[a] == q[ia] && order@[b] == q[ib]);
                if ia < ib {
                    assert(q[ia] < q[ib]);
                } else {
                    assert(q[ib] < q[ia]);
                }
            }
        }
        let coefficients = match lagrange_coefficients(&order) {
            Some(c) => c,
            None => {
                assert(false);
                return Err(FingerprintError::Internal);
            },
        };
        assert(values(coefficients@).len() == order@.len());
        let point = CurvePoint::hash_to_curve(seed);
        point.valid();
        let mut requests: Vec<CooperationRequest> = Vec::new();
        let mut k: usize = 1;
        while k < order.len()
            invariant
                1 <= k <= order.len(),
                coefficients.len() == order.len(),
                requests.len() == k - 1,
                forall|j: int|
                    0 <= j < k - 1 ==> (#[trigger] requests[j]).agent_id == order[j + 1]
                        && requests[j].point == point && requests[j].coefficient == coefficients[j
                        + 1],
            decreases order.len() - k,
        {
            requests.push(
                CooperationRequest {
                    agent_id: order[k],
                    point,
                    coefficient: coefficients[k],
                },
            );
            k += 1;
        }
        let accumulated = cooperate(&self.share, &point, &coefficients[0]);
        let session = CollaborativeSession {
            agent_id: self.agent_id,
            requests,
            answered: 0,
            accumulated,
            failure: None,
        };
        proof {
            assert(session.order() =~= order@);
            assert(session@.agent_ids =~= order@.skip(1));
            assert(is_quorum(
                q,
                self.spec_agent_id(),
                self.spec_topology().member_ids(),
                self.spec_topology().spec_threshold() as int,
            ));
            assert(session.order() == session_order(q, at as int));
        }
        Ok(session)
    }

    /// Runs the protocol with the other agents in this process: whoever is
    /// asked answers from its share among the given ones, and an agent
    /// without a share there does not answer.
    ///
    /// Where this agent's share and the given ones lie on one polynomial
    /// with no more coefficients than the threshold, the result is what
    /// the naive protocol makes of the seed with the polynomial's value at
    /// zero for its secret, whichever quorum is chosen.
    #[verifier::rlimit(40)]
    pub fn process_among(&self, specs: &Specs, seed: &FieldElement, shares: &Vec<SecretShare>) -> (r:
        Result<FieldElement, FingerprintError>)
        ensures
            self.spec_topology().spec_threshold() > self.spec_topology().member_ids().len() ==> r
                == Err::<FieldElement, FingerprintError>(FingerprintError::QuorumNotMet),
            r matches Err(FingerprintError::QuorumNotMet) ==> self.spec_topology().spec_threshold()
                > self.spec_topology().member_ids().len(),
            r matches Err(FingerprintError::AgentUnavailable(id)) ==> id != self.spec_agent_id()
                && self.spec_topology().member_ids().contains(id),
            self.spec_topology().spec_threshold() <= self.spec_topology().member_ids().len() && (
            forall|id: u64|
                id != self.spec_agent_id() && #[trigger] self.spec_topology().member_ids().contains(
                    id,
                ) ==> has_share(shares@, id)) ==> r is Ok,
            r matches Err(e) ==> e == FingerprintError::QuorumNotMet || (
            e matches FingerprintError::AgentUnavailable(id) && forall|j: int|
                0 <= j < shares.len() ==> (#[trigger] shares[j]).spec_agent_id() != id),
            r matches Err(FingerprintError::AgentUnavailable(id)) ==> exists|
                q: Seq<u64>,
                own: int,
                parts: Seq<nat>,
            |
                #![trigger session_order(q, own), parts.len()]
                {
                    &&& is_quorum(
                        q,
                        self.spec_agent_id(),
                        self.spec_topology().member_ids(),
                        self.spec_topology().spec_threshold() as int,
                    )
                    &&& 0 <= own < q.len()
                    &&& q[own] == self.spec_agent_id()
                    &&& 1 <= parts.len() < q.len()
                    &&& session_order(q, own)[parts.len() as int] == id
                    &&& forall|k: int|
                        1 <= k < parts.len() ==> #[trigger] holds(
                            shares@,
                            session_order(q, own)[k],
                            parts[k],
                        )
                },
            r matches Ok(x) ==> forall|coefficients: Seq<nat>|
                coefficients.len() <= self.spec_topology().spec_threshold() && #[trigger] lie_on(
                    shares@,
                    coefficients,
                ) && self.spec_share().value() == evaluate(
                    coefficients,
                    self.spec_agent_id() as nat,
                ) ==> x.value() == naive_fingerprint(evaluate(coefficients, 0), seed.encoding()),
            r matches Ok(x) ==> exists|q: Seq<u64>, own: int, parts: Seq<nat>|
                #![trigger session_order(q, own), is_run(self.spec_share(), shares@, session_order(q, own), parts)]
                {
                    &&& is_quorum(
                        q,
                        self.spec_agent_id(),
                        self.spec_topology().member_ids(),
                        self.spec_topology().spec_threshold() as int,
                    )
                    &&& 0 <= own < q.len()
                    &&& q[own] == self.spec_agent_id()
                    &&& is_run(self.spec_share(), shares@, session_order(q, own), parts)
                    &&& x.value() == naive_fingerprint(
                        dot(
                            lagrange_coefficients_at_zero(points_of(session_order(q, own))),
                            parts,
                        ),
                        seed.encoding(),
                    )
                },
    {
        let mut session = match self.begin(seed) {
            Ok(session) => session,
            Err(e) => {
                return Err(e);
            },
        };
        let ghost order = session.order();
        let ghost (quorum, own) = choose|q: Seq<u64>, own: int|
            #![trigger session_order(q, own)]
            is_quorum(
                q,
                self.spec_agent_id(),
                self.spec_topology().member_ids(),
                self.spec_topology().spec_threshold() as int,
            ) && 0 <= own < q.len() && q[own] == self.spec_agent_id() && order == session_order(
                q,
                own,
            );
        let ghost requests = session.requests();
        let ghost weights = lagrange_coefficients_at_zero(points_of(order));
        let ghost point = seed_point(seed.encoding());
        let ghost mut parts: Seq<nat> = seq![self.share.value()];
        proof {
            let first = fmul(weights[0], self.share.value());
            assert(weights.take(1).drop_last() =~= Seq::<nat>::empty());
            assert(parts.drop_last() =~= Seq::<nat>::empty());
            assert(dot(weights.take(1).drop_last(), parts.drop_last()) == 0);
            assert(weights.take(1).last() == weights[0] && parts.last() == self.share.value());
            vstd::arithmetic::div_mod::lemma_mod_bound(
                (weights[0] * self.share.value()) as int,
                modulus() as int,
            );
            vstd::arithmetic::div_mod::lemma_small_mod(first, modulus());
            assert(dot(weights.take(1), parts) == first);
        }
        proof {
            assert forall|k: int| 0 <= k < order.len() implies self.spec_topology().member_ids().contains(
                #[trigger] order[k],
            ) by {
                let at = if k == 0 {
                    own
                } else if k - 1 < own {
                    k - 1
                } else {
                    k
                };
                assert(order[k] == quorum[at]);
            }
        }
        let mut action = session.advance(specs, ProtocolEvent::Start);
        loop
            invariant
                session.order() == order,
                session.requests() == requests,
                order.len() == requests.len() + 1,
                session@.agent_ids == order.skip(1),
                session@.failure is None,
                0 <= session@.answered <= requests.len(),
                weights == lagrange_coefficients_at_zero(points_of(order)),
                point == seed_point(seed.encoding()),
                g1_decoding(point) == Some(point),
                order.len() == self.spec_topology().spec_threshold(),
                order == session_order(quorum, own),
                is_quorum(
                    quorum,
                    self.spec_agent_id(),
                    self.spec_topology().member_ids(),
                    self.spec_topology().spec_threshold() as int,
                ),
                0 <= own < quorum.len(),
                quorum[own] == self.spec_agent_id(),
                self.spec_topology().spec_threshold() <= self.spec_topology().member_ids().len(),
                order[0] == self.spec_agent_id(),
                all_distinct(order),
                forall|k: int|
                    0 <= k < order.len() ==> self.spec_topology().member_ids().contains(
                        #[trigger] order[k],
                    ),
                differences_invertible(points_of(order)),
                forall|k: int|
                    0 <= k < order.len() - 1 ==> (#[trigger] requests[k]).point.encoding() == point
                        && requests[k].coefficient.value() == weights[k + 1]
                        && requests[k].agent_id == order[k + 1],
                parts.len() == session@.answered + 1,
                parts[0] == self.spec_share().value(),
                forall|k: int| 1 <= k < parts.len() ==> #[trigger] holds(shares@, order[k], parts[k]),
                session@.accumulated == g1_scalar_mul(
                    point,
                    dot(weights.take(parts.len() as int), parts),
                ),
                match action {
                    ProtocolAction::Ask(request) => pending_action(session@) == ActionView::Ask(
                        request.agent_id,
                    ) && request == requests[session@.answered],
                    ProtocolAction::Done(x) => pending_action(session@) == ActionView::Done(
                        x.value(),
                    ),
                    ProtocolAction::Failed(e) => pending_action(session@) == ActionView::Failed(e),
                },
            decreases requests.len() - session@.answered,
        {
            match action {
                ProtocolAction::Ask(request) => {
                    let ghost asked = session@.answered;
                    let found = find_share(shares, request.agent_id);
                    match found {
                        Some(index) => {
                            let share = shares[index].value();
                            let reply = cooperate(&share, &request.point, &request.coefficient);
                            let ghost before = session@.accumulated;
                            let ghost inner = dot(weights.take(parts.len() as int), parts);
                            action = session.advance(specs, ProtocolEvent::Reply(reply));
                            proof {
                                let term = fmul(weights[asked + 1], share.value());
                                assert(adds_multiples(
                                    before,
                                    reply.encoding(),
                                    session@.accumulated,
                                ));
                                assert(before == g1_scalar_mul(point, inner));
                                assert(reply.encoding() == g1_scalar_mul(point, term));
                                lemma_dot_push(weights, parts, share.value());
                                lemma_holds_push(shares@, order, parts, index as int);
                                parts = parts.push(share.value());
                            }
                        },
                        None => {
                            let _ = session.advance(specs, ProtocolEvent::NoReply);
                            proof {
                                assert(session_order(quorum, own)[parts.len() as int]
                                    == request.agent_id);
                                assert(session_order(quorum, own).len() == quorum.len());
                                assert(order[parts.len() as int] != order[0]);
                                assert(self.spec_topology().member_ids().contains(
                                    order[parts.len() as int],
                                ));
                                if has_share(shares@, request.agent_id) {
                                    let j = choose|j: int|
                                        0 <= j < shares.len() && (#[trigger] shares[j]).spec_agent_id()
                                            == request.agent_id;
                                    assert(shares[j].spec_agent_id() != request.agent_id);
                                }
                            }
                            return Err(FingerprintError::AgentUnavailable(request.agent_id));
                        },
                    }
                },
                ProtocolAction::Done(x) => {
                    proof {
                        assert(weights.take(parts.len() as int) =~= weights);
                        assert(is_run(self.spec_share(), shares@, session_order(quorum, own), parts));
                        assert forall|f: Seq<nat>|
                            f.len() <= self.spec_topology().spec_threshold() && #[trigger] lie_on(
                                shares@,
                                f,
                            ) && self.spec_share().value() == evaluate(
                                f,
                                self.spec_agent_id() as nat,
                            ) implies x.value() == naive_fingerprint(
                            evaluate(f, 0),
                            seed.encoding(),
                        ) by {
                            lemma_parts_on_polynomial(shares@, order, parts, f);
                        }
                    }
                    return Ok(x);
                },
                ProtocolAction::Failed(e) => {
                    assert(false);
                    return Err(e);
                },
            }
        }
    }
}

/// Whether the parts are those of a run among the shares in the given
/// order: the first is the share of the agent that runs, and every other
/// is the value of a share of the agent at its place in the order.
pub open spec fn is_run(
    own_share: FieldElement,
    shares: Seq<SecretShare>,
    order: Seq<u64>,
    parts: Seq<nat>,
) -> bool {
    &&& parts.len() == order.len()
    &&& parts.len() >= 1
    &&& parts[0] == own_share.value()
    &&& forall|k: int| 1 <= k < parts.len() ==> #[trigger] holds(shares, order[k], parts[k])
}

/// The inner product grows by one term when the second row grows by one
/// entry.
pub proof fn lemma_dot_push(weights: Seq<nat>, parts: Seq<nat>, value: nat)
    requires
        parts.len() < weights.len(),
    ensures
        dot(weights.take(parts.len() as int + 1), parts.push(value)) == fadd(
            dot(weights.take(parts.len() as int), parts),
            fmul(weights[parts.len() as int], value),
        ),
{
    let n = parts.len() as int;
    assert(weights.take(n + 1).drop_last() =~= weights.take(n));
    assert(parts.push(value).drop_last() =~= parts);
    assert(weights.take(n + 1).last() == weights[n]);
}

/// The parts stay shares of their agents when the share at `index` joins
/// them as the part of the agent that is next in the order.
pub proof fn lemma_holds_push(
    shares: Seq<SecretShare>,
    order: Seq<u64>,
    parts: Seq<nat>,
    index: int,
)
    requires
        1 <= parts.len() < order.len(),
        0 <= index < shares.len(),
        shares[index].spec_agent_id() == order[parts.len() as int],
        forall|k: int| 1 <= k < parts.len() ==> #[trigger] holds(shares, order[k], parts[k]),
    ensures
        forall|k: int|
            1 <= k < parts.len() + 1 ==> #[trigger] holds(
                shares,
                order[k],
                parts.push(shares[index].spec_value().value())[k],
            ),
{
    let longer = parts.push(shares[index].spec_value().value());
    assert forall|k: int| 1 <= k < longer.len() implies #[trigger] holds(
        shares,
        order[k],
        longer[k],
    ) by {
        if k < parts.len() {
            assert(holds(shares, order[k], parts[k]));
        }
    }
}

/// Parts that are shares on a polynomial, the first the part of the first
/// agent of the order, are weighed to the polynomial's value at zero.
pub proof fn lemma_parts_on_polynomial(
    shares: Seq<SecretShare>,
    order: Seq<u64>,
    parts: Seq<nat>,
    f: Seq<nat>,
)
    requires
        parts.len() == order.len(),
        order.len() >= 1,
        f.len() <= order.len(),
        lie_on(shares, f),
        parts[0] == evaluate(f, order[0] as nat),
        forall|k: int| 1 <= k < parts.len() ==> #[trigger] holds(shares, order[k], parts[k]),
        differences_invertible(points_of(order)),
    ensures
        dot(lagrange_coefficients_at_zero(points_of(order)), parts) == evaluate(f, 0),
{
    let points = points_of(order);
    lemma_points_canonical(order);
    assert forall|k: int| 0 <= k < parts.len() implies parts[k] == evaluations(f, points)[k] by {
        if k >= 1 {
            assert(holds(shares, order[k], parts[k]));
            let j = choose|j: int|
                0 <= j < shares.len() && (#[trigger] shares[j]).spec_agent_id() == order[k]
                    && shares[j].spec_value().value() == parts[k];
            assert(shares[j].spec_value().value() == evaluate(
                f,
                shares[j].spec_agent_id() as nat,
            ));
        }
    }
    assert(parts =~= evaluations(f, points));
    lemma_interpolation_at_zero(points, f);
}

/// Whether the row holds a share of the agent.
pub open spec fn has_share(shares: Seq<SecretShare>, agent_id: u64) -> bool {
    exists|j: int| 0 <= j < shares.len() && (#[trigger] shares[j]).spec_agent_id() == agent_id
}

/// Whether the row holds a share of the agent with the given value.
pub open spec fn holds(shares: Seq<SecretShare>, agent_id: u64, value: nat) -> bool {
    exists|j: int|
        0 <= j < shares.len() && (#[trigger] shares[j]).spec_agent_id() == agent_id
            && shares[j].spec_value().value() == value
}

/// The place of an agent's share in a row of shares, if it has one there.
pub fn find_share(shares: &Vec<SecretShare>, agent_id: u64) -> (r: Option<usize>)
    ensures
        match r {
            Some(index) => index < shares.len() && shares[index as int].spec_agent_id() == agent_id,
            None => forall|j: int|
                0 <= j < shares.len() ==> (#[trigger] shares[j]).spec_agent_id() != agent_id,
        },
{
    let mut j: usize = 0;
    while j < shares.len()
        invariant
            j <= shares.len(),
            forall|k: int| 0 <= k < j ==> (#[trigger] shares[k]).spec_agent_id() != agent_id,
        decreases shares.len() - j,
    {
        if shares[j].agent_id() == agent_id {
            return Some(j);
        }
        j += 1;
    }
    None
}

} // verus!
