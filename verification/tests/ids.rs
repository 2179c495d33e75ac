use pyramus::PyramusError;
use pyramus::ids::PyramusId;

#[test]
fn shareable_id_round_trip() {
    let id = PyramusId::parse("2lkCB1").expect("valid base62 text");
    assert_eq!(id.format(), "2lkCB1");
}

#[test]
fn shareable_id_parse_then_format_then_parse() {
    let id = PyramusId(2537763355);
    let text = id.format();
    assert_eq!(text, "2lkCB1");
    assert_eq!(PyramusId::parse(&text).unwrap(), id);
}

#[test]
fn shareable_id_matches_reference_encoder() {
    for value in [0u32, 1, 61, 62, 4096, 999_999_999, u32::MAX] {
        assert_eq!(PyramusId(value).format(), base62::encode(value));
    }
}

#[test]
fn shareable_id_rejects_invalid_text() {
    assert_eq!(PyramusId::parse(""), Err(PyramusError::InvalidIdentifier));
    assert_eq!(PyramusId::parse("ab!c"), Err(PyramusError::InvalidIdentifier));
    assert_eq!(PyramusId::parse(" "), Err(PyramusError::InvalidIdentifier));
}

#[test]
fn shareable_id_rejects_values_past_32_bits() {
    // one past u32::MAX in base 62
    let too_big = base62::encode(u32::MAX as u64 + 1);
    assert_eq!(PyramusId::parse(&too_big), Err(PyramusError::InvalidIdentifier));
    // the largest 32-bit value itself still parses
    let max = base62::encode(u32::MAX);
    assert_eq!(PyramusId::parse(&max).unwrap(), PyramusId(u32::MAX));
}

#[test]
fn shareable_id_zero_is_one_digit() {
    assert_eq!(PyramusId(0).format(), "0");
    assert_eq!(PyramusId::parse("0").unwrap(), PyramusId(0));
}
