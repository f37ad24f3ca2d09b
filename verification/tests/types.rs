use libmcp::types::{Generation, InvariantViolation};

#[test]
fn generation_rejects_zero_and_overflow() {
    assert!(Generation::try_new(0).is_err());
    assert_eq!(Generation::try_new(7).map(Generation::get), Ok(7));
    assert!(Generation::try_new(u64::MAX).and_then(Generation::next).is_err());
}

#[test]
fn generations_advance_by_one() {
    assert_eq!(Generation::genesis().get(), 1);
    assert_eq!(Generation::genesis().next().map(Generation::get), Ok(2));
    assert_eq!(
        InvariantViolation::new("detail").detail,
        "detail"
    );
}

#[test]
fn generation_deserialization_preserves_non_zero_invariant() {
    // The wire form of a generation is its bare number, admitted through `try_new`.
    let decode = |text: &str| serde_json::from_str::<u64>(text).ok().and_then(|n| Generation::try_new(n).ok());
    assert!(decode("0").is_none());
    let generation = decode("9");
    assert!(matches!(generation, Some(value) if value.get() == 9));
}
