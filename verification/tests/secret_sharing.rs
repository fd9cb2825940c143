use fingerprinting::error::FingerprintError;
use fingerprinting::field::FieldElement;
use fingerprinting::secret_sharing::{
    evaluate_polynomial, lagrange_coefficient, lagrange_coefficients, reconstruct, split,
    SecretShare,
};

fn fe(n: u64) -> FieldElement {
    FieldElement::from_u64(n)
}

#[test]
fn polynomial_is_evaluated_with_the_constant_first() {
    // 5 + 3x + 2x^2
    let coefficients = vec![fe(5), fe(3), fe(2)];
    assert_eq!(evaluate_polynomial(&coefficients, &fe(0)), fe(5));
    assert_eq!(evaluate_polynomial(&coefficients, &fe(1)), fe(10));
    assert_eq!(evaluate_polynomial(&coefficients, &fe(2)), fe(19));
    assert_eq!(evaluate_polynomial(&coefficients, &fe(10)), fe(235));
    assert_eq!(evaluate_polynomial(&Vec::new(), &fe(3)), fe(0));
}

#[test]
fn shares_are_the_values_at_1_to_n() {
    let shares = split(&fe(42), 3, 2, &vec![fe(7)]).unwrap();
    assert_eq!(shares.len(), 3);
    for (i, share) in shares.iter().enumerate() {
        assert_eq!(share.agent_id(), i as u64 + 1);
        assert_eq!(share.value(), fe(42 + 7 * (i as u64 + 1)));
    }
}

#[test]
fn split_asks_for_a_threshold_within_the_number_of_shares() {
    assert_eq!(split(&fe(42), 3, 0, &vec![]).err(), Some(FingerprintError::InvalidInput));
    assert_eq!(split(&fe(42), 3, 4, &vec![fe(1), fe(2), fe(3)]).err(), Some(FingerprintError::InvalidInput));
    assert_eq!(split(&fe(42), 0, 0, &vec![]).err(), Some(FingerprintError::InvalidInput));
    // one coefficient too many, one too few
    assert_eq!(split(&fe(42), 3, 2, &vec![fe(1), fe(2)]).err(), Some(FingerprintError::InvalidInput));
    assert_eq!(split(&fe(42), 3, 2, &vec![]).err(), Some(FingerprintError::InvalidInput));
    assert!(split(&fe(42), 3, 3, &vec![fe(1), fe(2)]).is_ok());
    assert!(split(&fe(42), 1, 1, &vec![]).is_ok());
}

#[test]
fn lagrange_coefficients_of_1_and_2_are_2_and_minus_1() {
    let coefficients = lagrange_coefficients(&vec![1, 2]).unwrap();
    assert_eq!(coefficients, vec![fe(2), fe(1).neg()]);
    assert_eq!(lagrange_coefficient(&vec![1, 2], 0), Some(fe(2)));
    assert_eq!(lagrange_coefficient(&vec![1, 2], 1), Some(fe(1).neg()));
    // of 1, 2 and 3: 3, -3 and 1
    assert_eq!(lagrange_coefficients(&vec![1, 2, 3]).unwrap(), vec![fe(3), fe(3).neg(), fe(1)]);
    // a single point weighs one
    assert_eq!(lagrange_coefficients(&vec![9]).unwrap(), vec![fe(1)]);
    assert_eq!(lagrange_coefficients(&vec![]).unwrap(), Vec::<FieldElement>::new());
}

#[test]
fn lagrange_coefficients_sum_to_one() {
    let ids = vec![3, 17, 4, 99, u64::MAX];
    let coefficients = lagrange_coefficients(&ids).unwrap();
    let sum = coefficients.iter().fold(fe(0), |acc, c| acc.add(c));
    assert_eq!(sum, fe(1));
}

#[test]
fn repeated_id_has_no_lagrange_coefficients() {
    assert_eq!(lagrange_coefficients(&vec![1, 2, 1]), None);
    assert_eq!(lagrange_coefficient(&vec![1, 2, 1], 0), None);
    assert_eq!(lagrange_coefficient(&vec![1, 2, 1], 2), None);
    // the id at 1 occurs once: its coefficient exists
    assert!(lagrange_coefficient(&vec![1, 2, 1], 1).is_some());
}

#[test]
fn share_of_agent_zero_does_not_exist() {
    assert!(SecretShare::new(0, fe(1)).is_none());
    let share = SecretShare::new(5, fe(1)).unwrap();
    assert_eq!((share.agent_id(), share.value()), (5, fe(1)));
}

#[test]
fn every_subset_of_threshold_size_rebuilds_the_secret() {
    let secret = fe(42);
    let coefficients = vec![fe(0xdead_beef), fe(u64::MAX).mul(&fe(u64::MAX))];
    let shares = split(&secret, 5, 3, &coefficients).unwrap();
    for a in 0..5 {
        for b in (a + 1)..5 {
            for c in (b + 1)..5 {
                let subset = vec![shares[a], shares[b], shares[c]];
                assert_eq!(reconstruct(&subset), Some(secret));
                // the order of the shares does not matter
                let reordered = vec![shares[c], shares[a], shares[b]];
                assert_eq!(reconstruct(&reordered), Some(secret));
            }
        }
    }
    // more shares than the threshold rebuild it too
    assert_eq!(reconstruct(&shares), Some(secret));
}

#[test]
fn fewer_shares_than_the_threshold_rebuild_something_else() {
    let secret = fe(42);
    let shares = split(&secret, 5, 3, &vec![fe(11), fe(13)]).unwrap();
    let subset = vec![shares[0], shares[1]];
    assert_ne!(reconstruct(&subset), Some(secret));
}

#[test]
fn threshold_of_one_hands_the_secret_to_everyone() {
    let shares = split(&fe(42), 4, 1, &vec![]).unwrap();
    for share in shares {
        assert_eq!(share.value(), fe(42));
        assert_eq!(reconstruct(&vec![share]), Some(fe(42)));
    }
}

#[test]
fn shares_of_one_agent_twice_rebuild_nothing() {
    let shares = split(&fe(42), 3, 2, &vec![fe(5)]).unwrap();
    assert_eq!(reconstruct(&vec![shares[0], shares[0]]), None);
}
