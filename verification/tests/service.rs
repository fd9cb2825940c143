use chrono::{Datelike, Utc};
use fingerprinting::compact::Compact;
use fingerprinting::config::{AgentReferenceConfig, CooperativeTopologyConfig};
use fingerprinting::error::FingerprintError;
use fingerprinting::field::FieldElement;
use fingerprinting::hashing::Specs;
use fingerprinting::in_process::InProcessProtocol;
use fingerprinting::protocols::{
    AgentEndpoint, AgentsTopology, FingerprintProtocol, NaiveProtocol,
};
use fingerprinting::service::{
    date_from_dto, fingerprint_to_dto, money_from_dto, raw_transaction_from_dto,
    timestamp_from_dto, BatchItem, DateDto, FingerprintService, MoneyDto, ServiceError,
    StatusCode, TimestampDto, TransactionDto,
};

/// A protocol that fails with the error it holds, whatever the seed.
struct FailingProtocol {
    error: FingerprintError,
}

impl FingerprintProtocol for FailingProtocol {
    fn process(&self, _specs: &Specs, _seed: &FieldElement) -> Result<FieldElement, FingerprintError> {
        Err(self.error)
    }
}

fn money(currency: &str) -> MoneyDto {
    MoneyDto { currency: currency.to_string(), units: 1000, atto: 0 }
}

fn reference_dto() -> TransactionDto {
    TransactionDto {
        bic: "BCEELU21".to_string(),
        amount: Some(money("CURRENCY_EUR")),
        date_time: Some(TimestampDto { seconds: 1_758_026_096, nanos: 0 }),
        wwd: Some(DateDto { year: 2025, month: 9, day: 16 }),
    }
}

fn service() -> FingerprintService<NaiveProtocol> {
    FingerprintService::new(NaiveProtocol::new(FieldElement::from_u64(42)))
}

#[test]
fn timestamp_is_read_from_the_wire() {
    let t = timestamp_from_dto(TimestampDto { seconds: 1_758_026_096, nanos: 5 }).unwrap();
    assert_eq!((t.seconds, t.nanos), (1_758_026_096, 5));
    // the last second of the last year of the calendar
    assert!(timestamp_from_dto(TimestampDto { seconds: 8_210_266_876_799, nanos: 999_999_999 }).is_ok());
    // a leap second stands in the last second of a minute only
    assert!(timestamp_from_dto(TimestampDto { seconds: 59, nanos: 1_999_999_999 }).is_ok());
    for (seconds, nanos) in [
        (i64::MAX as u64 + 1, 0),
        (0, 2_000_000_000),
        (58, 1_000_000_000),
        (u64::MAX, 0),
        (i64::MAX as u64, 0),
        (8_210_266_876_800, 0),
    ] {
        assert_eq!(
            timestamp_from_dto(TimestampDto { seconds, nanos }),
            Err(ServiceError::InvalidTimestamp)
        );
    }
}

#[test]
fn date_is_read_from_the_wire() {
    let d = date_from_dto(DateDto { year: 2025, month: 9, day: 16 }).unwrap();
    assert_eq!((d.year(), d.month(), d.day()), (2025, 9, 16));
    for (year, month, day) in [
        (2025, 2, 30),
        (2025, 13, 1),
        (2025, 0, 1),
        (2025, 1, 0),
        (1u32 << 31, 1, 1),
        (262_143, 1, 1),
        (u32::MAX, 1, 1),
    ] {
        assert_eq!(date_from_dto(DateDto { year, month, day }), Err(ServiceError::InvalidDate));
    }
    // the last day of the calendar
    assert!(date_from_dto(DateDto { year: 262_142, month: 12, day: 31 }).is_ok());
}

#[test]
fn single_fingerprint_aborts_on_any_instant_before_the_epoch() {
    let specs = Specs::new().unwrap();
    for (seconds, nanos) in [(1_735_689_599, 500_000_000), (1_735_689_599, 999_999_999), (1_735_689_599, 0)] {
        let mut dto = reference_dto();
        dto.date_time = Some(TimestampDto { seconds, nanos });
        assert_eq!(
            service().compute_single_fingerprint(&specs, Some(dto)).err(),
            Some(ServiceError::Failed(FingerprintError::InvalidDate))
        );
    }
    let mut dto = reference_dto();
    dto.date_time = Some(TimestampDto { seconds: 1_735_689_600, nanos: 0 });
    assert!(service().compute_single_fingerprint(&specs, Some(dto)).is_ok());
    // a day that is not after the day of the epoch
    let mut dto = reference_dto();
    dto.wwd = Some(DateDto { year: 2025, month: 1, day: 1 });
    assert_eq!(
        service().compute_single_fingerprint(&specs, Some(dto)).err(),
        Some(ServiceError::Failed(FingerprintError::InvalidDate))
    );
}

#[test]
fn currency_loses_its_prefix() {
    let m = money_from_dto(MoneyDto { currency: "CURRENCY_EUR".to_string(), units: 7, atto: 9 }).unwrap();
    assert_eq!((m.currency.as_str(), m.amount_base, m.amount_atto), ("EUR", 7, 9));
    assert_eq!(money_from_dto(money("CURRENCY_")).unwrap().currency, "");
    assert_eq!(money_from_dto(money("CURRENCY_\u{20ac}")).unwrap().currency, "\u{20ac}");
    for currency in ["EUR", "", "CURRENCY", "currency_EUR", "XCURRENCY_EUR", "CURRENCYEUR_"] {
        assert_eq!(money_from_dto(money(currency)).err(), Some(ServiceError::InvalidCurrency), "{}", currency);
    }
}

#[test]
fn transaction_is_read_from_the_wire() {
    let tx = raw_transaction_from_dto(reference_dto()).unwrap();
    assert_eq!(tx.bic, "BCEELU21");
    assert_eq!((tx.amount.amount_base, tx.amount.amount_atto, tx.amount.currency.as_str()), (1000, 0, "EUR"));
    assert_eq!((tx.date_time.seconds, tx.date_time.nanos), (1_758_026_096, 0));
    assert_eq!((tx.wwd.year(), tx.wwd.month(), tx.wwd.day()), (2025, 9, 16));
}

#[test]
fn first_missing_or_malformed_part_decides_the_error() {
    let refusal = |change: &dyn Fn(&mut TransactionDto)| {
        let mut dto = reference_dto();
        change(&mut dto);
        raw_transaction_from_dto(dto).err()
    };
    assert_eq!(refusal(&|d| d.date_time = None), Some(ServiceError::MissingDateTime));
    assert_eq!(refusal(&|d| d.wwd = None), Some(ServiceError::MissingWwd));
    assert_eq!(refusal(&|d| d.amount = None), Some(ServiceError::MissingAmount));
    assert_eq!(refusal(&|d| d.date_time = Some(TimestampDto { seconds: 0, nanos: u32::MAX })), Some(ServiceError::InvalidTimestamp));
    assert_eq!(refusal(&|d| d.wwd = Some(DateDto { year: 2025, month: 2, day: 29 })), Some(ServiceError::InvalidDate));
    assert_eq!(refusal(&|d| d.amount = Some(money("EUR"))), Some(ServiceError::InvalidCurrency));
    // what is missing comes before what is malformed
    assert_eq!(
        refusal(&|d| {
            d.amount = None;
            d.date_time = Some(TimestampDto { seconds: 0, nanos: u32::MAX });
        }),
        Some(ServiceError::MissingAmount)
    );
    assert_eq!(
        refusal(&|d| {
            d.wwd = None;
            d.date_time = None;
        }),
        Some(ServiceError::MissingDateTime)
    );
    assert_eq!(
        refusal(&|d| {
            d.amount = Some(money("EUR"));
            d.wwd = Some(DateDto { year: 2025, month: 2, day: 29 });
        }),
        Some(ServiceError::InvalidDate)
    );
}

#[test]
fn fingerprint_goes_out_as_bytes_and_compact_text() {
    let x = FieldElement::from_limbs(1, 2, 3, 4).unwrap();
    let dto = fingerprint_to_dto(&x);
    assert_eq!(dto.fingerprint, x.to_bytes().to_vec());
    assert_eq!(dto.compact_fingerprint, x.compact());
}

#[test]
fn single_fingerprint_is_the_recorded_one() {
    let specs = Specs::new().unwrap();
    let out = service().compute_single_fingerprint(&specs, Some(reference_dto())).unwrap();
    assert_eq!(out.compact_fingerprint, "ASe8FxzvLfadv6SxtNpU9SpbVWxFQVTgVLpTR2XG1n95");
    let x = FieldElement::unwrap(&out.compact_fingerprint).unwrap();
    assert_eq!(out.fingerprint, x.to_bytes().to_vec());
}

#[test]
fn single_fingerprint_refuses_what_is_invalid() {
    let specs = Specs::new().unwrap();
    let refusal = |request: Option<TransactionDto>| service().compute_single_fingerprint(&specs, request).err();
    assert_eq!(refusal(None), Some(ServiceError::MissingTransaction));
    let mut dto = reference_dto();
    dto.wwd = None;
    assert_eq!(refusal(Some(dto)), Some(ServiceError::MissingWwd));
    let mut dto = reference_dto();
    dto.amount = Some(money("CURRENCY_XAU"));
    assert_eq!(refusal(Some(dto)), Some(ServiceError::InvalidTransaction(FingerprintError::InvalidInput)));
    let mut dto = reference_dto();
    dto.bic = "SHORT".to_string();
    assert_eq!(refusal(Some(dto)), Some(ServiceError::InvalidTransaction(FingerprintError::InvalidInput)));
    let mut dto = reference_dto();
    dto.date_time = Some(TimestampDto { seconds: 0, nanos: 0 });
    assert_eq!(refusal(Some(dto)), Some(ServiceError::Failed(FingerprintError::InvalidDate)));
}

#[test]
fn errors_have_their_status_codes() {
    assert_eq!(ServiceError::MissingTransaction.code(), StatusCode::InvalidArgument);
    assert_eq!(ServiceError::MissingAmount.code(), StatusCode::InvalidArgument);
    assert_eq!(ServiceError::InvalidCurrency.code(), StatusCode::InvalidArgument);
    assert_eq!(ServiceError::InvalidTransaction(FingerprintError::InvalidInput).code(), StatusCode::InvalidArgument);
    assert_eq!(ServiceError::Failed(FingerprintError::InvalidDate).code(), StatusCode::Aborted);
    assert_eq!(ServiceError::Failed(FingerprintError::AgentUnavailable(3)).code(), StatusCode::Aborted);
    assert_eq!(ServiceError::MissingTransaction.message(), "Transaction data missing");
    assert_eq!(ServiceError::MissingWwd.message(), "Transaction WWD is missing");
    assert_eq!(FingerprintError::QuorumNotMet.message(), "quorum not met");
}

#[test]
fn batch_is_answered_item_by_item_and_in_order() {
    let specs = Specs::new().unwrap();
    let mut other = reference_dto();
    other.bic = "DEUTDEFF".to_string();
    let mut bad = reference_dto();
    bad.amount = None;
    let batch = vec![
        BatchItem { item_id: 10, transaction_data: Some(reference_dto()) },
        BatchItem { item_id: 11, transaction_data: None },
        BatchItem { item_id: 12, transaction_data: Some(other) },
        BatchItem { item_id: 13, transaction_data: Some(bad) },
    ];
    let answers = service().compute_batch_fingerprint(&specs, batch);
    assert_eq!(answers.len(), 4);
    let first = answers[0].as_ref().unwrap();
    assert_eq!(first.item_id, 10);
    assert_eq!(first.fingerprint.compact_fingerprint, "ASe8FxzvLfadv6SxtNpU9SpbVWxFQVTgVLpTR2XG1n95");
    assert_eq!(answers[1].as_ref().err(), Some(&ServiceError::MissingTransaction));
    let third = answers[2].as_ref().unwrap();
    assert_eq!(third.item_id, 12);
    assert_ne!(third.fingerprint.compact_fingerprint, first.fingerprint.compact_fingerprint);
    assert_eq!(answers[3].as_ref().err(), Some(&ServiceError::MissingAmount));
    assert!(service().compute_batch_fingerprint(&specs, Vec::new()).is_empty());
    let item = service()
        .compute_batch_item(&specs, BatchItem { item_id: 5, transaction_data: Some(reference_dto()) })
        .unwrap();
    assert_eq!(item.item_id, 5);
}

#[test]
fn test_fingerprint_computation() {
    // a transaction of this moment, fingerprinted by cooperating agents
    let specs = Specs::new().unwrap();
    let tx_date = Utc::now();
    let transaction_data = TransactionDto {
        bic: "BCEELU21".to_string(),
        amount: Some(MoneyDto { currency: "CURRENCY_EUR".to_string(), units: 1000, atto: 0 }),
        date_time: Some(TimestampDto {
            seconds: tx_date.timestamp() as u64,
            nanos: tx_date.timestamp_subsec_nanos() % 1_000_000_000,
        }),
        wwd: Some(DateDto { year: tx_date.year() as u32, month: tx_date.month(), day: tx_date.day() }),
    };
    println!("Transaction data: {:?}", transaction_data);
    println!("Requesting the fingerprint computation... from cooperative agents");

    let members = (1..=3u64)
        .map(|id| AgentEndpoint { agent_id: id, endpoint: format!("[::1]:{}", 9000 + id) })
        .collect();
    let topology = AgentsTopology::new(3, 2, members).unwrap();
    let agents = InProcessProtocol::deal(
        &FieldElement::from_u64(42),
        &vec![FieldElement::from_u64(99)],
        1,
        topology,
    )
    .unwrap();
    let response = FingerprintService::new(agents)
        .compute_single_fingerprint(&specs, Some(transaction_data))
        .unwrap();

    let fixed_bytes: [u8; 32] = response.fingerprint.as_slice().try_into().unwrap();
    let fr_fingerprint = FieldElement::from_bytes(&fixed_bytes).unwrap();
    let compact_fingerprint = response.compact_fingerprint;
    println!("Fingerprint: {} fr {}", compact_fingerprint, fr_fingerprint.compact());
    assert_eq!(compact_fingerprint, fr_fingerprint.compact());
}

#[test]
fn cooperative_service_agrees_with_the_naive_one() {
    let specs = Specs::new().unwrap();
    let members = (1..=3u64)
        .map(|id| AgentEndpoint { agent_id: id, endpoint: String::new() })
        .collect();
    let topology = AgentsTopology::new(3, 2, members).unwrap();
    let agents = InProcessProtocol::deal(
        &FieldElement::from_u64(42),
        &vec![FieldElement::from_u64(99)],
        3,
        topology,
    )
    .unwrap();
    let cooperative = FingerprintService::new(agents)
        .compute_single_fingerprint(&specs, Some(reference_dto()))
        .unwrap();
    assert_eq!(cooperative.compact_fingerprint, "ASe8FxzvLfadv6SxtNpU9SpbVWxFQVTgVLpTR2XG1n95");
}

#[test]
fn cooperative_configuration_is_checked() {
    let config = |agent_id: usize, agents: usize, threshold: usize| CooperativeTopologyConfig {
        agent_id,
        secret_shard: String::new(),
        agents,
        threshold,
        members: vec![
            AgentReferenceConfig { agent_id: 1, address: "a:1".to_string() },
            AgentReferenceConfig { agent_id: 2, address: "b:2".to_string() },
        ],
    };
    assert_eq!(config(1, 3, 2).validate(), Ok(()));
    assert_eq!(config(2, 3, 3).validate(), Ok(()));
    assert_eq!(config(3, 3, 2).validate(), Err(FingerprintError::InvalidInput));
    assert_eq!(config(1, 3, 4).validate(), Err(FingerprintError::InvalidInput));
    assert_eq!(config(1, 3, 0).validate(), Err(FingerprintError::InvalidInput));
}

#[test]
fn every_failure_of_the_protocol_aborts_the_request() {
    let specs = Specs::new().unwrap();
    for error in [
        FingerprintError::InvalidInput,
        FingerprintError::InvalidDate,
        FingerprintError::AgentUnavailable(2),
        FingerprintError::QuorumNotMet,
        FingerprintError::Internal,
    ] {
        let service = FingerprintService::new(FailingProtocol { error });
        let answer = service.compute_single_fingerprint(&specs, Some(reference_dto())).err();
        assert_eq!(answer, Some(ServiceError::Failed(error)));
        assert_eq!(answer.unwrap().code(), StatusCode::Aborted);
        let item = service
            .compute_batch_item(&specs, BatchItem { item_id: 3, transaction_data: Some(reference_dto()) })
            .err();
        assert_eq!(item, Some(ServiceError::Failed(error)));
    }
    // a transaction that is not accepted never reaches the protocol
    let service = FingerprintService::new(FailingProtocol { error: FingerprintError::Internal });
    let mut dto = reference_dto();
    dto.bic = "SHORT".to_string();
    let answer = service.compute_single_fingerprint(&specs, Some(dto)).err();
    assert_eq!(answer, Some(ServiceError::InvalidTransaction(FingerprintError::InvalidInput)));
    assert_eq!(answer.unwrap().code(), StatusCode::InvalidArgument);
}
