use bsb::{Datatype, DateTime, TypedValue, TypedValueError, Value, ValueError};

fn datetime(year: u16, month: u8, day: u8, hour: u8, minute: u8, second: u8) -> DateTime {
    DateTime { year, month, day, hour, minute, second }
}

/// (datatype, encoded bytes, flag, decoded value, text)
fn datatype_value_success_testcases() -> Vec<(Datatype, Vec<u8>, Option<u8>, Value, &'static str)> {
    vec![
        (Datatype::Setting(2), vec![0, 1], Some(0), Value::Setting(1), "1"),
        (Datatype::Number, vec![0, 0, 15], Some(0), Value::Number(15), "15"),
        (
            Datatype::Float(10),
            vec![0, 0, 15],
            Some(0),
            Value::Float { raw: 15, divisor: 10 },
            "1.5",
        ),
        (
            Datatype::Float(50),
            vec![0, 0, 35],
            Some(0),
            Value::Float { raw: 35, divisor: 50 },
            "0.7",
        ),
        (
            Datatype::Float(64),
            vec![0, 5, 192],
            Some(0),
            Value::Float { raw: 1472, divisor: 64 },
            "23",
        ),
        (
            Datatype::DateTime,
            vec![0, 124, 11, 11, 1, 9, 36, 57, 0],
            Some(0),
            Value::DateTime(datetime(2024, 11, 11, 9, 36, 57)),
            "2024-11-11T09:36:57",
        ),
        (
            Datatype::Schedule,
            vec![6, 50, 7, 10, 18, 30, 18, 50, 24 ^ 0x80, 0, 24, 0],
            None,
            Value::Schedule(vec![(6, 50, 7, 10), (18, 30, 18, 50)]),
            "6:50-7:10,18:30-18:50",
        ),
    ]
}

#[test]
fn test_typed_value_decode() {
    for (datatype, bytes, flag, value, _display_str) in datatype_value_success_testcases() {
        let testcase = TypedValue::decode(&bytes, datatype).unwrap();
        let want = TypedValue::new(datatype, flag, value).unwrap();
        assert_eq!(testcase, want);
    }
}

#[test]
fn test_typed_value_encode() {
    for (datatype, bytes, flag, value, _display_str) in datatype_value_success_testcases() {
        let testcase = TypedValue::new(datatype, flag, value).unwrap().encode();
        assert_eq!(testcase, bytes);
    }
}

#[test]
fn test_typed_value_decode_encode_identical() {
    for (datatype, bytes, _flag, _value, _display_str) in datatype_value_success_testcases() {
        let decoded = TypedValue::decode(&bytes, datatype).unwrap();
        assert_eq!(decoded.encode(), bytes);
    }
}

#[test]
fn test_typed_value_to_string() {
    for (datatype, _bytes, flag, value, display_str) in datatype_value_success_testcases() {
        let testcase = TypedValue::new(datatype, flag, value).unwrap().to_string();
        assert_eq!(testcase, display_str.to_string());
    }
}

#[test]
fn test_typed_value_decode_errors() {
    let error_testcases = vec![
        (Datatype::Setting(2), vec![0, 3], TypedValueError::InvalidSetting),
        (Datatype::Number, vec![0, 0], TypedValueError::InvalidPayloadLength),
        (Datatype::Float(10), vec![0, 0], TypedValueError::InvalidPayloadLength),
        (
            Datatype::DateTime,
            vec![0, 124, 11, 11, 1, 9, 36, 57],
            TypedValueError::InvalidPayloadLength,
        ),
        (
            Datatype::DateTime,
            vec![0, 124, 11, 11, 1, 25, 36, 57, 0],
            TypedValueError::InvalidDateTime,
        ),
        (Datatype::Schedule, vec![6, 50, 7, 10, 18, 30, 18], TypedValueError::InvalidSchedule),
        (
            Datatype::Schedule,
            vec![6, 50, 7, 10, 18, 30, 18, 60, 24 ^ 0x80, 0, 24, 0],
            TypedValueError::InvalidSchedule,
        ),
    ];
    for (datatype, bytes, error) in error_testcases {
        let testcase = TypedValue::decode(&bytes, datatype).expect_err("not an error");
        assert_eq!(testcase, error);
    }
}

#[test]
fn test_typed_value_encode_decode_identical() {
    for (datatype, _bytes, flag, value, _display_str) in datatype_value_success_testcases() {
        let want = TypedValue::new(datatype, flag, value).unwrap();
        let encoded = want.encode();
        let testcase_decoded = TypedValue::decode(&encoded, datatype).unwrap();
        assert_eq!(testcase_decoded, want);
    }
}

#[test]
fn test_typed_value_invalid_datatype_value_combination() {
    let testcase = TypedValue::new(Datatype::Number, Some(0), Value::Float { raw: 10, divisor: 10 })
        .expect_err("no error");
    assert_eq!(testcase, TypedValueError::InvalidDatatype);
}

#[test]
fn test_value_from_string() {
    for (datatype, _bytes, _flag, value, display_str) in datatype_value_success_testcases() {
        let testcase = Value::from_str(display_str, datatype).unwrap();
        assert_eq!(testcase, value);
    }
}

#[test]
fn test_value_from_to_string_identical() {
    for (datatype, _bytes, _flag, _value, display_str) in datatype_value_success_testcases() {
        let testcase = Value::from_str(display_str, datatype).unwrap().to_string();
        assert_eq!(testcase, display_str.to_string());
    }
}

#[test]
fn test_value_to_from_string_identical() {
    for (datatype, _bytes, _flag, value, _display_str) in datatype_value_success_testcases() {
        let testcase = Value::from_str(&value.to_string(), datatype).unwrap();
        assert_eq!(testcase, value);
    }
}

#[test]
fn test_value_from_string_errors() {
    let from_string_error_testcases = vec![
        (Datatype::Setting(2), "3", ValueError::InvalidSetting),
        (Datatype::Schedule, "6:50-7:10,18:30-18:60", ValueError::InvalidSchedule),
        (Datatype::Schedule, "6:50-7:10,18:3018:50", ValueError::InvalidSchedule),
    ];
    for (datatype, string, error) in from_string_error_testcases {
        let testcase = Value::from_str(string, datatype).expect_err("not an error");
        assert_eq!(testcase, error);
    }
}

#[test]
fn test_value_default_for_datatype() {
    assert_eq!(Value::default_for_datatype(Datatype::Setting(2)), Value::Setting(0));
    assert_eq!(Value::default_for_datatype(Datatype::Number), Value::Number(0));
    assert_eq!(
        Value::default_for_datatype(Datatype::Float(10)),
        Value::Float { raw: 0, divisor: 10 }
    );
    assert_eq!(
        Value::default_for_datatype(Datatype::DateTime),
        Value::DateTime(datetime(1970, 1, 1, 0, 0, 0))
    );
    assert_eq!(
        Value::default_for_datatype(Datatype::Schedule),
        Value::Schedule(vec![(0, 0, 0, 0)])
    );
}

#[test]
fn ret_payload_float_one_and_a_half() {
    let decoded = TypedValue::decode(&[0, 0, 15], Datatype::Float(10)).unwrap();
    assert_eq!(decoded.value(), &Value::Float { raw: 15, divisor: 10 });
    assert_eq!(decoded.flag(), Some(0));
    assert_eq!(decoded.to_string(), "1.5");
    assert_eq!(decoded.encode(), vec![0, 0, 15]);
}

#[test]
fn schedule_ends_with_terminator() {
    for ranges in [vec![], vec![(6, 0, 22, 30)], vec![(1, 2, 3, 4), (24, 59, 24, 59)]] {
        let t = TypedValue::new(Datatype::Schedule, None, Value::Schedule(ranges.clone())).unwrap();
        let bytes = t.encode();
        assert_eq!(bytes.len(), 4 * ranges.len() + 4);
        assert_eq!(&bytes[bytes.len() - 4..], &[0x98, 0x00, 0x18, 0x00]);
        assert_eq!(TypedValue::decode(&bytes, Datatype::Schedule).unwrap(), t);
    }
}

#[test]
fn payload_round_trip_edges() {
    let cases = vec![
        (Datatype::Setting(0), Some(7), Value::Setting(0)),
        (Datatype::Setting(255), Some(255), Value::Setting(255)),
        (Datatype::Number, Some(1), Value::Number(65535)),
        (Datatype::Float(3), Some(2), Value::Float { raw: -1, divisor: 3 }),
        (Datatype::Float(255), Some(0), Value::Float { raw: i16::MIN, divisor: 255 }),
        (Datatype::DateTime, Some(9), Value::DateTime(datetime(1900, 1, 1, 0, 0, 0))),
        (Datatype::DateTime, Some(9), Value::DateTime(datetime(2155, 12, 31, 23, 59, 59))),
        (Datatype::DateTime, Some(0), Value::DateTime(datetime(2024, 2, 29, 12, 0, 0))),
    ];
    for (datatype, flag, value) in cases {
        let t = TypedValue::new(datatype, flag, value).unwrap();
        assert_eq!(TypedValue::decode(&t.encode(), datatype).unwrap(), t);
    }
}

#[test]
fn datetime_payload_carries_weekday() {
    // 2024-11-17 is a Sunday
    let t = TypedValue::new(Datatype::DateTime, Some(0), Value::DateTime(datetime(2024, 11, 17, 0, 0, 0)))
        .unwrap();
    assert_eq!(t.encode(), vec![0, 124, 11, 17, 7, 0, 0, 0, 0]);
}

#[test]
fn decode_boundaries() {
    assert_eq!(
        TypedValue::decode(&[0, 3], Datatype::Setting(2)).unwrap_err(),
        TypedValueError::InvalidSetting
    );
    assert_eq!(
        TypedValue::decode(&[0], Datatype::Setting(2)).unwrap_err(),
        TypedValueError::InvalidPayloadLength
    );
    assert_eq!(
        TypedValue::decode(&[1, 2, 3, 4, 5], Datatype::Schedule).unwrap_err(),
        TypedValueError::InvalidSchedule
    );
    assert_eq!(
        TypedValue::decode(&[0, 124, 0, 11, 1, 9, 36, 57, 0], Datatype::DateTime).unwrap_err(),
        TypedValueError::InvalidDateTime
    );
    assert_eq!(
        TypedValue::decode(&[0, 124, 11, 11, 1, 25, 36, 57, 0], Datatype::DateTime).unwrap_err(),
        TypedValueError::InvalidDateTime
    );
    assert_eq!(
        TypedValue::decode(&[0, 123, 2, 29, 1, 0, 0, 0, 0], Datatype::DateTime).unwrap_err(),
        TypedValueError::InvalidDateTime
    );
    let decoded = TypedValue::decode(&[0, 0xff, 0xff], Datatype::Float(10)).unwrap();
    assert_eq!(decoded.value(), &Value::Float { raw: -1, divisor: 10 });
    assert_eq!(decoded.to_string(), "-0.1");
}

#[test]
fn new_checks_bounds_and_flags() {
    assert_eq!(
        TypedValue::new(Datatype::Setting(2), Some(0), Value::Setting(3)).unwrap_err(),
        TypedValueError::InvalidSetting
    );
    assert_eq!(
        TypedValue::new(Datatype::Number, None, Value::Number(3)).unwrap_err(),
        TypedValueError::InvalidDatatype
    );
    assert_eq!(
        TypedValue::new(Datatype::Float(10), Some(0), Value::Float { raw: 3, divisor: 5 }).unwrap_err(),
        TypedValueError::InvalidDatatype
    );
    assert_eq!(
        TypedValue::new(Datatype::Schedule, None, Value::Schedule(vec![(25, 0, 0, 0)])).unwrap_err(),
        TypedValueError::InvalidSchedule
    );
    assert_eq!(
        TypedValue::new(Datatype::Schedule, Some(0), Value::Schedule(vec![(1, 0, 2, 0)])).unwrap_err(),
        TypedValueError::InvalidDatatype
    );
    assert_eq!(
        TypedValue::new(Datatype::DateTime, Some(0), Value::DateTime(datetime(2023, 2, 29, 0, 0, 0)))
            .unwrap_err(),
        TypedValueError::InvalidDateTime
    );
}

#[test]
fn text_forms() {
    assert_eq!(Value::from_str("+7", Datatype::Number), Ok(Value::Number(7)));
    assert_eq!(Value::from_str("65536", Datatype::Number), Err(ValueError::ParseIntError));
    assert_eq!(Value::from_str("", Datatype::Setting(3)), Err(ValueError::ParseIntError));
    assert_eq!(Value::from_str("x", Datatype::Float(10)), Err(ValueError::ParseFloatError));
    assert_eq!(
        Value::from_str("-0.25", Datatype::Float(4)),
        Ok(Value::Float { raw: -1, divisor: 4 })
    );
    // 0.25 * 10 = 2.5 rounds to the even 2
    assert_eq!(Value::from_str("0.25", Datatype::Float(10)), Ok(Value::Float { raw: 2, divisor: 10 }));
    assert_eq!(Value::from_str("4000", Datatype::Float(10)), Err(ValueError::ParseFloatError));
    assert_eq!(Value::Float { raw: 1, divisor: 3 }.to_string(), "0.3");
    assert_eq!(Value::Float { raw: 12345, divisor: 64 }.to_string(), "192.89");
    assert_eq!(Value::Float { raw: -32768, divisor: 1 }.to_string(), "-32768");
    assert_eq!(
        Value::from_str("2024-13-01T00:00:00", Datatype::DateTime),
        Err(ValueError::ParseDateTimeError)
    );
    assert_eq!(
        Value::from_str("1899-12-31T23:59:59", Datatype::DateTime),
        Err(ValueError::ParseDateTimeError)
    );
    assert_eq!(Value::from_str("", Datatype::Schedule), Ok(Value::Schedule(vec![])));
    assert_eq!(Value::from_str("6:00-7:00,", Datatype::Schedule), Err(ValueError::InvalidSchedule));
    assert_eq!(Value::from_str(",", Datatype::Schedule), Err(ValueError::InvalidSchedule));
    assert_eq!(Value::from_str(".5", Datatype::Float(10)), Ok(Value::Float { raw: 5, divisor: 10 }));
    assert_eq!(Value::from_str("5.", Datatype::Float(10)), Ok(Value::Float { raw: 50, divisor: 10 }));
    assert_eq!(Value::from_str("-.5", Datatype::Float(2)), Ok(Value::Float { raw: -1, divisor: 2 }));
    assert_eq!(Value::from_str(".", Datatype::Float(10)), Err(ValueError::ParseFloatError));
    assert_eq!(Value::from_str("-", Datatype::Float(10)), Err(ValueError::ParseFloatError));
    assert_eq!(Value::from_str("6:x-7:00", Datatype::Schedule), Err(ValueError::ParseIntError));
    assert_eq!(Value::Schedule(vec![]).to_string(), "");
    let empty = Value::Schedule(vec![]);
    assert_eq!(Value::from_str(&empty.to_string(), Datatype::Schedule), Ok(empty));
    for raw in [-32768i16, -1000, -7, 0, 1, 99, 12345, 32767] {
        for divisor in [1u8, 2, 3, 7, 10, 50, 64, 100, 255] {
            let v = Value::Float { raw, divisor };
            assert_eq!(Value::from_str(&v.to_string(), Datatype::Float(divisor)), Ok(v));
        }
    }
}

#[test]
fn typed_text_and_defaults() {
    let t = TypedValue::from_str("6:00-7:30", Datatype::Schedule).unwrap();
    assert_eq!(t.flag(), None);
    assert_eq!(TypedValue::from_str("7", Datatype::Number).unwrap().flag(), Some(0));
    assert_eq!(TypedValue::default_for_datatype(Datatype::Schedule).flag(), None);
    assert_eq!(TypedValue::default_for_datatype(Datatype::Number).flag(), Some(0));
    let s = TypedValue::default_for_datatype(Datatype::Schedule);
    assert_eq!(TypedValue::decode(&s.encode(), Datatype::Schedule).unwrap(), s);
    assert_eq!(t.value(), &Value::Schedule(vec![(6, 0, 7, 30)]));
    let d = TypedValue::default_for_datatype(Datatype::DateTime);
    assert_eq!(d.to_string(), "1970-01-01T00:00:00");
    assert_eq!(d.datatype(), &Datatype::DateTime);
    assert!(TypedValue::from_str("9", Datatype::Setting(2)).is_err());
}
