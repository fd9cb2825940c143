use fingerprinting::curve::{CurvePoint, HASH_TO_CURVE_PREFIX};
use fingerprinting::date_time::{CalendarDate, Timestamp};
use fingerprinting::error::FingerprintError;
use fingerprinting::field::FieldElement;
use fingerprinting::hashing::Specs;
use fingerprinting::in_process::InProcessProtocol;
use fingerprinting::protocols::{
    AgentEndpoint, AgentsTopology, FingerprintProtocol, NaiveProtocol,
};
use fingerprinting::service::{
    BatchItem, DateDto, FingerprintService, MoneyDto, ServiceError, TimestampDto, TransactionDto,
};
use fingerprinting::transaction::{
    fingerprint, Fingerprint, Money, RawTransaction, TransactionFingerprintData,
};
use halo2_axiom::halo2curves::bn256::G1;
use halo2_axiom::halo2curves::group::GroupEncoding;
use halo2_axiom::halo2curves::CurveExt;

fn fe(n: u64) -> FieldElement {
    FieldElement::from_u64(n)
}

fn topology(agents: usize, threshold: usize, ids: &[u64]) -> AgentsTopology {
    let members = ids
        .iter()
        .map(|id| AgentEndpoint { agent_id: *id, endpoint: format!("agent-{}:9000", id) })
        .collect();
    AgentsTopology::new(agents, threshold, members).unwrap()
}

/// The agents of two out of three that share 42 on the line 42 + X.
fn two_of_three(agent_id: u64, ids: &[u64]) -> InProcessProtocol {
    InProcessProtocol::deal(&fe(42), &vec![fe(1)], agent_id, topology(3, 2, ids)).unwrap()
}

fn reference_transaction() -> RawTransaction {
    RawTransaction {
        bic: "BCEELU21".to_string(),
        amount: Money { amount_base: 1000, amount_atto: 0, currency: "EUR".to_string() },
        date_time: Timestamp::from_timestamp(1_758_026_096, 0).unwrap(),
        wwd: CalendarDate::from_ymd(2025, 9, 16).unwrap(),
    }
}

fn reference_dto() -> TransactionDto {
    TransactionDto {
        bic: "BCEELU21".to_string(),
        amount: Some(MoneyDto { currency: "CURRENCY_EUR".to_string(), units: 1000, atto: 0 }),
        date_time: Some(TimestampDto { seconds: 1_758_026_096, nanos: 0 }),
        wwd: Some(DateDto { year: 2025, month: 9, day: 16 }),
    }
}

#[test]
fn seed_is_hashed_to_the_curve_under_the_tag_of_the_library() {
    assert_eq!(HASH_TO_CURVE_PREFIX, "CRA_FINGERPRINT");
    let seed = fe(1234);
    let point = CurvePoint::hash_to_curve(&seed);
    let expected = G1::hash_to_curve("CRA_FINGERPRINT")(&seed.to_bytes());
    assert_eq!(&point.to_bytes()[..], expected.to_bytes().as_ref());
    let other = G1::hash_to_curve("ANOTHER_TAG")(&seed.to_bytes());
    assert_ne!(&point.to_bytes()[..], other.to_bytes().as_ref());
    // the seed is not handed back
    assert_ne!(point.to_bytes(), seed.to_bytes());
}

#[test]
fn every_quorum_of_two_out_of_three_agrees_with_the_naive_protocol() {
    let specs = Specs::new().unwrap();
    let naive = NaiveProtocol::new(fe(42));
    for seed in [fe(0), fe(1), fe(987_654_321)] {
        let expected = naive.process(&specs, &seed).unwrap();
        for ids in [[1u64, 2], [1, 3], [2, 3]] {
            for agent_id in ids {
                let agents = two_of_three(agent_id, &ids);
                assert_eq!(agents.process(&specs, &seed), Ok(expected));
            }
        }
        for agent_id in 1..=3u64 {
            let agents = two_of_three(agent_id, &[3, 1, 2]);
            assert_eq!(agents.process(&specs, &seed), Ok(expected));
        }
    }
}

#[test]
fn every_quorum_reproduces_the_recorded_fingerprint() {
    let specs = Specs::new().unwrap();
    let naive = NaiveProtocol::new(fe(42));
    let data = TransactionFingerprintData::try_from(reference_transaction()).unwrap();
    let recorded = data.complete_fingerprint(&specs, &naive).unwrap();
    assert_eq!(
        fingerprinting::compact::Compact::compact(&recorded),
        "ASe8FxzvLfadv6SxtNpU9SpbVWxFQVTgVLpTR2XG1n95"
    );
    for ids in [[1u64, 2], [1, 3], [2, 3]] {
        for agent_id in ids {
            let agents = two_of_three(agent_id, &ids);
            assert_eq!(
                data.datetime_fingerprint(&specs, &agents),
                data.datetime_fingerprint(&specs, &naive)
            );
            assert_eq!(data.complete_fingerprint(&specs, &agents), Ok(recorded));
            assert_eq!(fingerprint(&specs, reference_transaction(), &agents), Ok(recorded));
        }
    }
}

#[test]
fn three_out_of_five_agree_with_the_naive_protocol() {
    let specs = Specs::new().unwrap();
    let secret = fe(777);
    let seed = fe(31337);
    let expected = NaiveProtocol::new(secret).process(&specs, &seed).unwrap();
    for agent_id in [2u64, 4, 5] {
        let agents = InProcessProtocol::deal(
            &secret,
            &vec![fe(11), fe(22)],
            agent_id,
            topology(5, 3, &[5, 2, 4]),
        )
        .unwrap();
        assert_eq!(agents.process(&specs, &seed), Ok(expected));
    }
    let agents =
        InProcessProtocol::deal(&secret, &vec![fe(11), fe(22)], 1, topology(5, 3, &[1, 2, 3, 4, 5]))
            .unwrap();
    assert_eq!(agents.process(&specs, &seed), Ok(expected));
}

#[test]
fn too_few_members_do_not_meet_the_quorum() {
    let specs = Specs::new().unwrap();
    let agents = InProcessProtocol::deal(&fe(42), &vec![fe(1)], 2, topology(3, 2, &[2])).unwrap();
    assert_eq!(agents.process(&specs, &fe(5)), Err(FingerprintError::QuorumNotMet));
    let service = FingerprintService::new(agents);
    assert_eq!(
        service.compute_single_fingerprint(&specs, Some(reference_dto())).err(),
        Some(ServiceError::Failed(FingerprintError::QuorumNotMet))
    );
}

#[test]
fn dealing_asks_for_a_member_and_for_as_many_coefficients_as_the_threshold() {
    let deal = |coefficients: Vec<FieldElement>, agent_id: u64, t: AgentsTopology| {
        InProcessProtocol::deal(&fe(42), &coefficients, agent_id, t).err()
    };
    assert_eq!(deal(vec![fe(1)], 1, topology(3, 2, &[1, 2])), None);
    assert_eq!(deal(vec![], 1, topology(3, 1, &[1])), None);
    assert_eq!(deal(vec![], 1, topology(3, 2, &[1, 2])), Some(FingerprintError::InvalidInput));
    assert_eq!(
        deal(vec![fe(1), fe(2)], 1, topology(3, 2, &[1, 2])),
        Some(FingerprintError::InvalidInput)
    );
    // the agent is no member
    assert_eq!(deal(vec![fe(1)], 3, topology(3, 2, &[1, 2])), Some(FingerprintError::InvalidInput));
    // a member without a share
    assert_eq!(deal(vec![fe(1)], 1, topology(3, 2, &[1, 4])), Some(FingerprintError::InvalidInput));
}

#[test]
fn service_in_one_process_answers_as_the_naive_service() {
    let specs = Specs::new().unwrap();
    let naive = FingerprintService::new(NaiveProtocol::new(fe(42)));
    let expected = naive.compute_single_fingerprint(&specs, Some(reference_dto())).unwrap();
    assert_eq!(expected.compact_fingerprint, "ASe8FxzvLfadv6SxtNpU9SpbVWxFQVTgVLpTR2XG1n95");
    for ids in [[1u64, 2], [1, 3], [2, 3]] {
        let service = FingerprintService::new(two_of_three(ids[1], &ids));
        let single = service.compute_single_fingerprint(&specs, Some(reference_dto())).unwrap();
        assert_eq!(single.fingerprint, expected.fingerprint);
        assert_eq!(single.compact_fingerprint, expected.compact_fingerprint);
        let batch = vec![
            BatchItem { item_id: 8, transaction_data: Some(reference_dto()) },
            BatchItem { item_id: 9, transaction_data: None },
        ];
        let mut answers = service.compute_batch_fingerprint(&specs, batch);
        assert_eq!(answers.len(), 2);
        assert_eq!(answers.pop().unwrap().err(), Some(ServiceError::MissingTransaction));
        let first = answers.pop().unwrap().unwrap();
        assert_eq!(first.item_id, 8);
        assert_eq!(first.fingerprint.fingerprint, expected.fingerprint);
        assert_eq!(first.fingerprint.compact_fingerprint, expected.compact_fingerprint);
    }
}
