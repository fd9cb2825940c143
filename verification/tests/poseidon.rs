use fingerprinting::field::FieldElement;
use fingerprinting::poseidon::{Poseidon, Spec, State};

fn element(decimal: &str) -> FieldElement {
    // decimal digits to a field element, by Horner's rule in the field
    let ten = FieldElement::from_u64(10);
    let mut acc = FieldElement::zero();
    for c in decimal.bytes() {
        assert!(c.is_ascii_digit());
        acc = acc.mul(&ten).add(&FieldElement::from_u64((c - b'0') as u64));
    }
    acc
}

fn counting_state(width: u64) -> State {
    State::from_words((0..width).map(FieldElement::from_u64).collect())
}

#[test]
fn permutation_matches_the_published_vector_of_width_3() {
    let spec = Spec::new(3, 8, 57).unwrap();
    let mut state = counting_state(3);
    spec.permute(&mut state);
    let expected = [
        "7853200120776062878684798364095072458815029376092732009249414926327459813530",
        "7142104613055408817911962100316808866448378443474503659992478482890339429929",
        "6549537674122432311777789598043107870002137484850126429160507761192163713804",
    ];
    for (i, e) in expected.iter().enumerate() {
        assert_eq!(state.word(i), element(e), "word {}", i);
    }
}

#[test]
fn permutation_matches_the_published_vector_of_width_5() {
    let spec = Spec::new(5, 8, 60).unwrap();
    let mut state = counting_state(5);
    spec.permute(&mut state);
    let expected = [
        "18821383157269793795438455681495246036402687001665670618754263018637548127333",
        "7817711165059374331357136443537800893307845083525445872661165200086166013245",
        "16733335996448830230979566039396561240864200624113062088822991822580465420551",
        "6644334865470350789317807668685953492649391266180911382577082600917830417726",
        "3372108894677221197912083238087960099443657816445944159266857514496320565191",
    ];
    for (i, e) in expected.iter().enumerate() {
        assert_eq!(state.word(i), element(e), "word {}", i);
    }
}

#[test]
fn permutation_matches_the_published_vector_of_width_2() {
    let spec = Spec::new(2, 8, 56).unwrap();
    let mut state = counting_state(2);
    spec.permute(&mut state);
    assert_eq!(
        state.word(0),
        element("18586133768512220936620570745912940619677854269274689475585506675881198879027")
    );
}

#[test]
fn permutation_matches_the_published_vector_of_width_4() {
    let spec = Spec::new(4, 8, 56).unwrap();
    let mut state = counting_state(4);
    spec.permute(&mut state);
    assert_eq!(
        state.word(0),
        element("6542985608222806190361240322586112750744169038454362455181422643027100751666")
    );
}

#[test]
fn parameters_have_the_sizes_asked_for() {
    let parameters = Spec::new(4, 8, 57).unwrap();
    assert_eq!(parameters.width(), 4);
    assert_eq!(parameters.rate(), 3);
    assert_eq!(parameters.r_f(), 8);
    assert_eq!(parameters.r_p(), 57);
    assert_eq!(parameters.constants().start.len(), 5);
    assert_eq!(parameters.constants().partial.len(), 57);
    assert_eq!(parameters.constants().end.len(), 3);
    assert_eq!(parameters.mds_matrices().sparse_matrices.len(), 57);
    assert_eq!(parameters.mds_matrices().mds.dimension(), 4);
}

#[test]
fn parameters_are_refused_for_bad_sizes() {
    assert!(Spec::new(1, 8, 57).is_none());
    assert!(Spec::new(3, 7, 57).is_none());
    assert!(Spec::new(3, 0, 57).is_none());
    assert!(Spec::new(4096, 8, 57).is_none());
    assert!(Spec::new(3, 1024, 57).is_none());
    assert!(Spec::new(3, 8, 1024).is_none());
}

#[test]
fn sponge_is_deterministic_and_depends_on_every_input() {
    let spec = Spec::new(4, 8, 57).unwrap();
    let inputs = [FieldElement::from_u64(1), FieldElement::from_u64(2), FieldElement::from_u64(3)];
    let mut a = Poseidon::new_with_spec(&spec);
    a.update(&inputs);
    let first = a.squeeze();
    let mut b = Poseidon::new_with_spec(&spec);
    b.update(&inputs);
    assert_eq!(first, b.squeeze());
    for i in 0..3 {
        let mut changed = inputs;
        changed[i] = FieldElement::from_u64(9);
        let mut c = Poseidon::new_with_spec(&spec);
        c.update(&changed);
        assert_ne!(first, c.squeeze());
    }
}

#[test]
fn sponge_absorbs_piecewise_as_it_does_at_once() {
    let spec = Spec::new(3, 8, 57).unwrap();
    let inputs: Vec<FieldElement> = (1..=5u64).map(FieldElement::from_u64).collect();
    let mut whole = Poseidon::new_with_spec(&spec);
    whole.update(&inputs);
    let mut pieces = Poseidon::new_with_spec(&spec);
    pieces.update(&inputs[..1]);
    pieces.update(&inputs[1..4]);
    pieces.update(&inputs[4..]);
    assert_eq!(whole.squeeze(), pieces.squeeze());
}

#[test]
fn squeeze_of_a_full_block_permutes_twice() {
    // rate 2: two inputs fill a block, which is permuted on update; the
    // squeeze then permutes once more and hands out position 1
    let spec = Spec::new(3, 8, 57).unwrap();
    let one = FieldElement::from_u64(1);
    let two = FieldElement::from_u64(2);
    let mut sponge = Poseidon::new_with_spec(&spec);
    sponge.update(&[one, two]);
    let squeezed = sponge.squeeze();
    let mut state = State::from_words(vec![FieldElement::zero(), one, two]);
    spec.permute(&mut state);
    spec.permute(&mut state);
    assert_eq!(squeezed, state.word(1));
}

#[test]
fn squeeze_pads_a_short_block_with_zeros() {
    let spec = Spec::new(4, 8, 57).unwrap();
    let five = FieldElement::from_u64(5);
    let mut sponge = Poseidon::new_with_spec(&spec);
    sponge.update(&[five]);
    let squeezed = sponge.squeeze();
    let mut state = State::from_words(vec![
        FieldElement::zero(),
        five,
        FieldElement::zero(),
        FieldElement::zero(),
    ]);
    spec.permute(&mut state);
    assert_eq!(squeezed, state.word(1));
}
