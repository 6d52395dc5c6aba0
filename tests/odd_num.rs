use odd_num::{InvalidOddNumber, OddNum, OddNumRecord};

fn keyed(n: serde_json::Value) -> serde_json::Value {
    let mut fields = serde_json::Map::new();
    fields.insert("n".to_string(), n);
    serde_json::Value::Object(fields)
}

fn decode_json(json: &serde_json::Value) -> Option<Result<OddNum, InvalidOddNumber>> {
    let text = json.get("n")?.as_str()?;
    Some(OddNum::decode(&OddNumRecord { n: text.to_string() }))
}

fn record(n: &str) -> OddNumRecord {
    OddNumRecord { n: n.to_string() }
}

#[test]
fn succeeds_for_valid() {
    let json = keyed(serde_json::Value::String("1".to_string()));
    assert_eq!(
        decode_json(&json).unwrap().unwrap(),
        OddNum::try_from(1).unwrap()
    );
}

#[test]
fn failed_for_invalid() {
    let json = keyed(serde_json::Value::String("2".to_string()));
    match decode_json(&json).unwrap() {
        Ok(_) => panic!("2 is even, so decoding it must fail"),
        Err(e) => assert_eq!(e, InvalidOddNumber::Even),
    }
}

#[test]
fn round_trip_every_odd_byte() {
    for v in (1..=255u8).step_by(2) {
        let o = OddNum::try_from(v).unwrap();
        assert_eq!(o.value(), v);
        assert_eq!(OddNum::from_str(&o.to_string()), Ok(o));
        assert_eq!(OddNum::decode(&o.encode()), Ok(o));
    }
}

#[test]
fn every_even_byte_is_rejected() {
    for v in (0..=254u8).step_by(2) {
        assert_eq!(OddNum::try_from(v), Err(InvalidOddNumber::Even));
        let text = format!("{}", v);
        assert_eq!(OddNum::from_str(&text), Err(InvalidOddNumber::Even));
        assert_eq!(OddNum::decode(&record(&text)), Err(InvalidOddNumber::Even));
    }
}

#[test]
fn non_numeric_text_is_not_a_number() {
    for s in ["abc", "", "1.5", "-3", "256", "1000", " 1", "1 ", "+", "-", "0x1", "٣"] {
        assert_eq!(OddNum::from_str(s), Err(InvalidOddNumber::NaN), "{:?}", s);
    }
}

#[test]
fn numeral_is_checked_before_parity() {
    assert_eq!(OddNum::from_str("two"), Err(InvalidOddNumber::NaN));
    assert_eq!(OddNum::from_str("2"), Err(InvalidOddNumber::Even));
    assert_eq!(OddNum::from_str("256"), Err(InvalidOddNumber::NaN));
}

#[test]
fn sign_and_leading_zeros_are_read() {
    assert_eq!(OddNum::from_str("+7").unwrap().value(), 7);
    assert_eq!(OddNum::from_str("007").unwrap().value(), 7);
    assert_eq!(OddNum::from_str("255").unwrap().value(), 255);
    assert_eq!(OddNum::from_str("+0"), Err(InvalidOddNumber::Even));
}

#[test]
fn decode_record_scenarios() {
    assert_eq!(OddNum::decode(&record("1")), OddNum::try_from(1));
    assert_eq!(OddNum::decode(&record("2")), Err(InvalidOddNumber::Even));
    assert_eq!(OddNum::decode(&record("x")), Err(InvalidOddNumber::NaN));
}

#[test]
fn to_string_is_canonical_decimal() {
    assert_eq!(OddNum::try_from(1).unwrap().to_string(), "1");
    assert_eq!(OddNum::try_from(13).unwrap().to_string(), "13");
    assert_eq!(OddNum::try_from(101).unwrap().to_string(), "101");
    assert_eq!(OddNum::try_from(255).unwrap().to_string(), "255");
}

#[test]
fn encode_puts_text_in_field_n() {
    assert_eq!(OddNum::try_from(201).unwrap().encode().n, "201");
    assert_eq!(OddNum::try_from(9).unwrap().encode().n, "9");
}

#[test]
fn std_from_str_goes_through_the_same_reader() {
    assert_eq!("9".parse::<OddNum>().unwrap().value(), 9);
    assert_eq!("8".parse::<OddNum>(), Err(InvalidOddNumber::Even));
    assert_eq!("nine".parse::<OddNum>(), Err(InvalidOddNumber::NaN));
}
