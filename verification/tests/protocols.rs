use fingerprinting::curve::CurvePoint;
use fingerprinting::error::FingerprintError;
use fingerprinting::field::FieldElement;
use fingerprinting::hashing::{HashSqueeze, Specs};
use fingerprinting::protocols::{
    aggregate, cooperate, AgentEndpoint, AgentsTopology, CollaborativeProtocol,
    FingerprintProtocol, NaiveProtocol, ProtocolAction, ProtocolEvent,
};
use fingerprinting::secret_sharing::{lagrange_coefficients, split, SecretShare};

fn fe(n: u64) -> FieldElement {
    FieldElement::from_u64(n)
}

fn members(ids: &[u64]) -> Vec<AgentEndpoint> {
    ids.iter()
        .map(|id| AgentEndpoint { agent_id: *id, endpoint: format!("agent-{}:9000", id) })
        .collect()
}

fn topology(agents: usize, threshold: usize, ids: &[u64]) -> AgentsTopology {
    AgentsTopology::new(agents, threshold, members(ids)).unwrap()
}

/// Runs a session to its end; every agent that is asked answers from its share.
fn run(
    specs: &Specs,
    protocol: &CollaborativeProtocol,
    shares: &[SecretShare],
    seed: &FieldElement,
) -> Result<FieldElement, FingerprintError> {
    let mut session = protocol.begin(seed)?;
    let mut action = session.advance(specs, ProtocolEvent::Start);
    loop {
        match action {
            ProtocolAction::Ask(request) => {
                let share = shares.iter().find(|s| s.agent_id() == request.agent_id).unwrap();
                let reply = cooperate(&share.value(), &request.point, &request.coefficient);
                action = session.advance(specs, ProtocolEvent::Reply(reply));
            }
            ProtocolAction::Done(x) => return Ok(x),
            ProtocolAction::Failed(e) => return Err(e),
        }
    }
}

#[test]
fn naive_protocol_hashes_the_multiple_of_the_hashed_seed() {
    let specs = Specs::new().unwrap();
    let seed = fe(1234);
    let secret = fe(42);
    let expected = CurvePoint::hash_to_curve(&seed).mul(&secret).squeeze(&specs);
    assert_eq!(NaiveProtocol::new(secret).process(&specs, &seed), expected);
}

#[test]
fn naive_protocol_depends_on_seed_and_secret() {
    let specs = Specs::new().unwrap();
    let reference = NaiveProtocol::new(fe(42)).process(&specs, &fe(1)).unwrap();
    assert_eq!(NaiveProtocol::new(fe(42)).process(&specs, &fe(1)).unwrap(), reference);
    assert_ne!(NaiveProtocol::new(fe(43)).process(&specs, &fe(1)).unwrap(), reference);
    assert_ne!(NaiveProtocol::new(fe(42)).process(&specs, &fe(2)).unwrap(), reference);
}

#[test]
fn points_code_and_decode() {
    let point = CurvePoint::hash_to_curve(&fe(7));
    let bytes = point.to_bytes();
    assert_eq!(CurvePoint::from_bytes(&bytes), Some(point));
    // an x with no point on the curve
    let mut off_curve = None;
    for x in 0..=255u8 {
        let mut candidate = [0u8; 32];
        candidate[0] = x;
        if CurvePoint::from_bytes(&candidate).is_none() {
            off_curve = Some(x);
            break;
        }
    }
    assert!(off_curve.is_some());
    // the point at infinity
    let mut infinity = [0u8; 32];
    infinity[31] = 0x80;
    let identity = CurvePoint::from_bytes(&infinity).unwrap();
    assert_eq!(identity.to_bytes(), infinity);
    // another spelling of the point at infinity decodes to the canonical one
    let mut spelled = [0u8; 32];
    spelled[31] = 0xC0;
    assert_eq!(CurvePoint::from_bytes(&spelled), Some(identity));
    assert_eq!(CurvePoint::from_bytes(&spelled).unwrap().to_bytes(), infinity);
    assert_eq!(point.add(&identity), point);
    assert_eq!(point.mul(&fe(0)), identity);
}

#[test]
fn multiples_of_a_point_add_up() {
    let point = CurvePoint::hash_to_curve(&fe(7));
    assert_eq!(point.mul(&fe(1)), point);
    assert_eq!(point.add(&point), point.mul(&fe(2)));
    assert_eq!(point.mul(&fe(3)).add(&point.mul(&fe(4))), point.mul(&fe(7)));
    assert_eq!(point.mul(&fe(3)).mul(&fe(4)), point.mul(&fe(12)));
    // the scalars add up in the field
    let minus_one = fe(1).neg();
    assert_eq!(point.mul(&minus_one).add(&point.mul(&fe(3))), point.mul(&fe(2)));
    assert_ne!(point.mul(&fe(2)), point);
}

#[test]
fn cooperation_multiplies_by_coefficient_times_share() {
    let point = CurvePoint::hash_to_curve(&fe(7));
    assert_eq!(cooperate(&fe(5), &point, &fe(6)), point.mul(&fe(30)));
}

#[test]
fn aggregate_is_the_multiple_by_the_weighted_sum() {
    let point = CurvePoint::hash_to_curve(&fe(99));
    let coefficients = vec![fe(2), fe(3), fe(5)];
    let shares = vec![fe(7), fe(11), fe(13)];
    assert_eq!(aggregate(&point, &coefficients, &shares), Some(point.mul(&fe(14 + 33 + 65))));
    assert_eq!(aggregate(&point, &vec![fe(4)], &vec![fe(5)]), Some(point.mul(&fe(20))));
    assert_eq!(aggregate(&point, &vec![], &vec![]), Some(point.mul(&fe(0))));
    assert_eq!(aggregate(&point, &vec![fe(4)], &vec![]), None);
}

#[test]
fn aggregate_of_a_quorum_is_the_multiple_by_the_secret() {
    let secret = fe(42);
    let shares = split(&secret, 5, 3, &vec![fe(1001), fe(2002)]).unwrap();
    let point = CurvePoint::hash_to_curve(&fe(5));
    let quorum = [shares[4], shares[1], shares[2]];
    let ids: Vec<u64> = quorum.iter().map(|s| s.agent_id()).collect();
    let values: Vec<FieldElement> = quorum.iter().map(|s| s.value()).collect();
    let coefficients = lagrange_coefficients(&ids).unwrap();
    assert_eq!(aggregate(&point, &coefficients, &values), Some(point.mul(&secret)));
}

#[test]
fn topology_asks_for_distinct_ids_that_are_not_zero() {
    assert!(AgentsTopology::new(3, 2, members(&[1, 2, 3])).is_ok());
    assert!(AgentsTopology::new(3, 2, members(&[])).is_ok());
    assert_eq!(AgentsTopology::new(3, 2, members(&[1, 2, 1])).err(), Some(FingerprintError::InvalidInput));
    assert_eq!(AgentsTopology::new(3, 2, members(&[1, 0, 3])).err(), Some(FingerprintError::InvalidInput));
    assert_eq!(AgentsTopology::new(3, 0, members(&[1, 2, 3])).err(), Some(FingerprintError::InvalidInput));
    assert_eq!(AgentsTopology::new(3, 4, members(&[1, 2, 3])).err(), Some(FingerprintError::InvalidInput));
    let t = topology(5, 3, &[9, 4, 7]);
    assert_eq!((t.agents(), t.threshold()), (5, 3));
    assert_eq!(t.members().len(), 3);
    assert_eq!(t.members()[1].endpoint, "agent-4:9000");
    assert!(t.is_member(7));
    assert!(!t.is_member(5));
    assert_eq!(t.sorted_ids(), vec![4, 7, 9]);
}

#[test]
fn quorum_is_the_smallest_ids_with_the_agent_among_them() {
    let t = topology(6, 3, &[50, 10, 40, 20, 30]);
    // among the three smallest
    assert_eq!(t.quorum(10), Ok(vec![10, 20, 30]));
    assert_eq!(t.quorum(20), Ok(vec![10, 20, 30]));
    assert_eq!(t.quorum(30), Ok(vec![10, 20, 30]));
    // not among them: it takes the place of the largest
    assert_eq!(t.quorum(40), Ok(vec![10, 20, 40]));
    assert_eq!(t.quorum(50), Ok(vec![10, 20, 50]));
    assert_eq!(topology(1, 1, &[8]).quorum(8), Ok(vec![8]));
    assert_eq!(topology(3, 1, &[8, 3]).quorum(8), Ok(vec![8]));
    assert_eq!(topology(3, 3, &[8, 3, 5]).quorum(8), Ok(vec![3, 5, 8]));
    // who is not a member has no quorum
    assert_eq!(t.quorum(35), Err(FingerprintError::InvalidInput));
    assert_eq!(topology(5, 3, &[1, 2]).quorum(9), Err(FingerprintError::QuorumNotMet));
}

#[test]
fn quorum_is_not_met_with_fewer_members_than_the_threshold() {
    let t = topology(5, 3, &[1, 2]);
    assert_eq!(t.quorum(1), Err(FingerprintError::QuorumNotMet));
    let protocol = CollaborativeProtocol::new((1, fe(5)), t).unwrap();
    assert_eq!(protocol.begin(&fe(9)).err(), Some(FingerprintError::QuorumNotMet));
}

#[test]
fn agent_must_be_a_member_of_its_topology() {
    assert_eq!(
        CollaborativeProtocol::new((4, fe(5)), topology(3, 2, &[1, 2, 3])).err(),
        Some(FingerprintError::InvalidInput)
    );
    assert!(CollaborativeProtocol::new((3, fe(5)), topology(3, 2, &[1, 2, 3])).is_ok());
}

#[test]
fn collaborative_2_of_3_agrees_with_naive_for_every_pair() {
    let specs = Specs::new().unwrap();
    let secret = fe(42);
    let shares = split(&secret, 3, 2, &vec![fe(0x1234_5678_9abc_def0)]).unwrap();
    let seed = fe(22_336_496);
    let expected = NaiveProtocol::new(secret).process(&specs, &seed);
    assert!(expected.is_ok());
    for pair in [[1u64, 2], [1, 3], [2, 3]] {
        for own in pair {
            let share = shares[(own - 1) as usize];
            let protocol =
                CollaborativeProtocol::new((own, share.value()), topology(3, 2, &pair)).unwrap();
            assert_eq!(run(&specs, &protocol, &shares, &seed), expected, "{:?} {}", pair, own);
        }
    }
    // with all three known, every agent finds a quorum
    for own in 1..=3u64 {
        let share = shares[(own - 1) as usize];
        let protocol =
            CollaborativeProtocol::new((own, share.value()), topology(3, 2, &[3, 1, 2])).unwrap();
        assert_eq!(run(&specs, &protocol, &shares, &seed), expected);
    }
}

#[test]
fn collaborative_3_of_5_agrees_with_naive() {
    let specs = Specs::new().unwrap();
    let secret = fe(42);
    let shares = split(&secret, 5, 3, &vec![fe(77), fe(88)]).unwrap();
    let seed = fe(1);
    let expected = NaiveProtocol::new(secret).process(&specs, &seed);
    for own in 1..=5u64 {
        let share = shares[(own - 1) as usize];
        let protocol =
            CollaborativeProtocol::new((own, share.value()), topology(5, 3, &[5, 4, 3, 2, 1])).unwrap();
        assert_eq!(run(&specs, &protocol, &shares, &seed), expected);
    }
}

#[test]
fn run_among_local_shares_agrees_with_naive_for_every_quorum() {
    let specs = Specs::new().unwrap();
    let secret = fe(42);
    let shares = split(&secret, 5, 3, &vec![fe(77), fe(88)]).unwrap();
    let seed = fe(3);
    let expected = NaiveProtocol::new(secret).process(&specs, &seed);
    for members in [vec![1u64, 2, 3], vec![5, 3, 1], vec![2, 4, 5], vec![1, 2, 3, 4, 5]] {
        for own in members.iter() {
            let share = shares[(*own - 1) as usize];
            let protocol =
                CollaborativeProtocol::new((*own, share.value()), topology(5, 3, &members)).unwrap();
            assert_eq!(protocol.process_among(&specs, &seed, &shares), expected);
            assert_eq!(run(&specs, &protocol, &shares, &seed), expected);
        }
    }
}

#[test]
fn run_among_local_shares_misses_an_agent_without_a_share() {
    let specs = Specs::new().unwrap();
    let shares = split(&fe(42), 3, 2, &vec![fe(77)]).unwrap();
    let protocol =
        CollaborativeProtocol::new((1, shares[0].value()), topology(3, 2, &[1, 2, 3])).unwrap();
    assert_eq!(
        protocol.process_among(&specs, &fe(3), &vec![shares[0], shares[2]]),
        Err(FingerprintError::AgentUnavailable(2))
    );
    let alone = CollaborativeProtocol::new((1, shares[0].value()), topology(3, 2, &[1])).unwrap();
    assert_eq!(
        alone.process_among(&specs, &fe(3), &shares.to_vec()),
        Err(FingerprintError::QuorumNotMet)
    );
}

#[test]
fn session_asks_the_other_agents_in_ascending_order() {
    let specs = Specs::new().unwrap();
    let shares = split(&fe(42), 5, 3, &vec![fe(77), fe(88)]).unwrap();
    let protocol = CollaborativeProtocol::new(
        (2, shares[1].value()),
        topology(5, 3, &[5, 4, 3, 2, 1]),
    )
    .unwrap();
    let seed = fe(10);
    let point = CurvePoint::hash_to_curve(&seed);
    let coefficients = lagrange_coefficients(&vec![1, 2, 3]).unwrap();
    let mut session = protocol.begin(&seed).unwrap();
    let first = match session.advance(&specs, ProtocolEvent::Start) {
        ProtocolAction::Ask(request) => request,
        other => panic!("{:?}", other),
    };
    assert_eq!((first.agent_id, first.point, first.coefficient), (1, point, coefficients[0]));
    // asking again changes nothing
    match session.advance(&specs, ProtocolEvent::Start) {
        ProtocolAction::Ask(request) => assert_eq!(request.agent_id, 1),
        other => panic!("{:?}", other),
    }
    let reply = cooperate(&shares[0].value(), &first.point, &first.coefficient);
    let second = match session.advance(&specs, ProtocolEvent::Reply(reply)) {
        ProtocolAction::Ask(request) => request,
        other => panic!("{:?}", other),
    };
    assert_eq!((second.agent_id, second.point, second.coefficient), (3, point, coefficients[2]));
    let reply = cooperate(&shares[2].value(), &second.point, &second.coefficient);
    let done = match session.advance(&specs, ProtocolEvent::Reply(reply)) {
        ProtocolAction::Done(x) => x,
        other => panic!("{:?}", other),
    };
    assert_eq!(Ok(done), NaiveProtocol::new(fe(42)).process(&specs, &seed));
    // a run that is over stays over
    match session.advance(&specs, ProtocolEvent::NoReply) {
        ProtocolAction::Done(x) => assert_eq!(x, done),
        other => panic!("{:?}", other),
    }
    match session.advance(&specs, ProtocolEvent::Reply(point)) {
        ProtocolAction::Done(x) => assert_eq!(x, done),
        other => panic!("{:?}", other),
    }
}

#[test]
fn silent_agent_fails_the_session_for_good() {
    let specs = Specs::new().unwrap();
    let shares = split(&fe(42), 3, 2, &vec![fe(77)]).unwrap();
    let protocol =
        CollaborativeProtocol::new((1, shares[0].value()), topology(3, 2, &[1, 2, 3])).unwrap();
    let mut session = protocol.begin(&fe(10)).unwrap();
    let request = match session.advance(&specs, ProtocolEvent::Start) {
        ProtocolAction::Ask(request) => request,
        other => panic!("{:?}", other),
    };
    assert_eq!(request.agent_id, 2);
    match session.advance(&specs, ProtocolEvent::NoReply) {
        ProtocolAction::Failed(e) => assert_eq!(e, FingerprintError::AgentUnavailable(2)),
        other => panic!("{:?}", other),
    }
    let late = cooperate(&shares[1].value(), &request.point, &request.coefficient);
    match session.advance(&specs, ProtocolEvent::Reply(late)) {
        ProtocolAction::Failed(e) => assert_eq!(e, FingerprintError::AgentUnavailable(2)),
        other => panic!("{:?}", other),
    }
}

#[test]
fn session_of_a_threshold_of_one_asks_nobody() {
    let specs = Specs::new().unwrap();
    let protocol = CollaborativeProtocol::new((4, fe(42)), topology(3, 1, &[2, 4])).unwrap();
    let mut session = protocol.begin(&fe(10)).unwrap();
    match session.advance(&specs, ProtocolEvent::Start) {
        ProtocolAction::Done(x) => {
            assert_eq!(Ok(x), NaiveProtocol::new(fe(42)).process(&specs, &fe(10)))
        }
        other => panic!("{:?}", other),
    }
}

#[test]
fn wrong_answer_changes_the_result() {
    let specs = Specs::new().unwrap();
    let shares = split(&fe(42), 3, 2, &vec![fe(77)]).unwrap();
    let protocol =
        CollaborativeProtocol::new((1, shares[0].value()), topology(3, 2, &[1, 2, 3])).unwrap();
    let seed = fe(10);
    let mut session = protocol.begin(&seed).unwrap();
    let request = match session.advance(&specs, ProtocolEvent::Start) {
        ProtocolAction::Ask(request) => request,
        other => panic!("{:?}", other),
    };
    let wrong = cooperate(&shares[2].value(), &request.point, &request.coefficient);
    match session.advance(&specs, ProtocolEvent::Reply(wrong)) {
        ProtocolAction::Done(x) => {
            assert_ne!(Ok(x), NaiveProtocol::new(fe(42)).process(&specs, &seed))
        }
        other => panic!("{:?}", other),
    }
}
