use bsb::{
    BsbError, Datatype, Field, FieldError, FieldValue, Frame, NamedValue, TypedValue,
    TypedValueError, Value,
};

const TESTFIELD: Field = Field {
    id: 0x313d052f,
    name: "warmwater_temperature",
    prognr: 8701,
    datatype: Datatype::Float(64),
    path: "temperature/warmwater",
};

fn create_test_field_value() -> FieldValue {
    let typed_value =
        TypedValue::new(Datatype::Float(10), Some(0), Value::Float { raw: 15, divisor: 10 }).unwrap();
    FieldValue::new(87890416, typed_value).unwrap()
}

#[test]
fn test_field_db_by_id() {
    let testcase = Field::by_id(TESTFIELD.id).unwrap();
    assert_eq!(testcase, TESTFIELD);
}

#[test]
fn test_field_db_by_name() {
    let testcase = Field::by_name(TESTFIELD.name).unwrap();
    assert_eq!(testcase, TESTFIELD);
}

#[test]
fn test_field_to_string() {
    let testcase = TESTFIELD.to_string();
    assert_eq!(&testcase, TESTFIELD.name);
}

#[test]
fn field_test_field_id() {
    assert_eq!(TESTFIELD.id(), 0x313d052f);
}

#[test]
fn test_field_datatype() {
    assert_eq!(TESTFIELD.datatype(), Datatype::Float(64));
}

#[test]
fn test_field_prognr() {
    assert_eq!(TESTFIELD.prognr(), 8701);
}

#[test]
fn test_field_name() {
    assert_eq!(TESTFIELD.name(), "warmwater_temperature");
}

#[test]
fn test_field_path() {
    assert_eq!(TESTFIELD.path(), "temperature/warmwater");
}

#[test]
fn test_field_iter() {
    let testcase = Field::iter().into_iter().next();
    assert!(testcase.is_some())
}

#[test]
fn test_field_value_from_frame() {
    let frame = Frame::new(66, 0, 7, 87890416, vec![0, 0, 15]);
    let testcase = FieldValue::from_frame(&frame).unwrap();
    assert_eq!(testcase, create_test_field_value());
}

#[test]
fn test_field_value_from_str() {
    let testcase = FieldValue::from_str("1.5", 87890416).unwrap();
    assert_eq!(testcase, create_test_field_value());
}

#[test]
fn test_field_value_access_path() {
    assert_eq!(create_test_field_value().path(), "system/water_pressure");
}

#[test]
fn test_field_value_access_field() {
    let testcase = create_test_field_value().field();
    assert_eq!(testcase, Field::by_id(87890416).unwrap());
}

#[test]
fn test_field_value_access_typed_value() {
    let test_field_value = create_test_field_value();
    let testcase = test_field_value.typed_value();
    let want =
        &TypedValue::new(Datatype::Float(10), Some(0), Value::Float { raw: 15, divisor: 10 }).unwrap();
    assert_eq!(testcase, want);
}

#[test]
fn test_field_value_to_value_str() {
    assert_eq!(create_test_field_value().value_str(), "1.5");
}

#[test]
fn test_field_value_to_string() {
    assert_eq!(create_test_field_value().to_string(), "water_pressure: 1.5".to_string());
}

#[test]
fn test_field_value_encode() {
    assert_eq!(create_test_field_value().encode(), vec![0, 0, 15]);
}

#[test]
fn test_field_value_default_for_field() {
    let field = Field::by_id(87890416).unwrap();
    let testcase = FieldValue::default_for_field(&field);
    let typed_value =
        TypedValue::new(Datatype::Float(10), Some(0), Value::Float { raw: 0, divisor: 10 }).unwrap();
    let want = FieldValue::new(field.id(), typed_value).unwrap();
    assert_eq!(testcase, want);
}

#[test]
fn test_field_value_from_frame_invalid() {
    let frame = Frame::new(66, 0, 7, 222103850, vec![0, 3]);
    let testcase = FieldValue::from_frame(&frame).expect_err("not an error");
    assert_eq!(testcase, BsbError::TypedValueError(TypedValueError::InvalidSetting));
}

#[test]
fn test_named_value_to_string() {
    let testcase = NamedValue::new("test", "1.5".to_string()).to_string();
    assert_eq!(testcase, "test: 1.5".to_string());
}

#[test]
fn test_named_value_access_name() {
    assert_eq!(NamedValue::new("test", "1.5".to_string()).name(), "test");
}

#[test]
fn test_named_value_access_value() {
    let named_value = NamedValue::new("test", "1.5".to_string());
    assert_eq!(named_value.value(), "1.5");
}

#[test]
fn unknown_fields_and_mismatches() {
    assert_eq!(Field::by_id(1).unwrap_err(), BsbError::Field(FieldError::UnknownField));
    assert_eq!(Field::by_name("no_such_field"), None);
    let frame = Frame::new(66, 0, 7, 1, vec![0, 0, 15]);
    assert_eq!(
        FieldValue::from_frame(&frame).unwrap_err(),
        BsbError::Field(FieldError::UnknownField)
    );
    assert!(frame.try_decode().is_none());
    let number = TypedValue::new(Datatype::Number, Some(0), Value::Number(1)).unwrap();
    assert_eq!(
        FieldValue::new(87890416, number).unwrap_err(),
        BsbError::TypedValueError(TypedValueError::InvalidDatatype)
    );
    assert!(FieldValue::from_str("x", 87890416).is_err());
    assert_eq!(Field::iter().len(), 3);
}

#[test]
fn named_value_of_field_value() {
    let named = NamedValue::from_field_value(&create_test_field_value());
    assert_eq!(named.name(), "water_pressure");
    assert_eq!(named.value(), "1.5");
}

#[test]
fn field_value_from_text() {
    assert_eq!(FieldValue::from_text("water_pressure: 1.5").unwrap(), create_test_field_value());
    assert_eq!(FieldValue::from_text("  water_pressure :1.5  ").unwrap(), create_test_field_value());
    assert_eq!(
        FieldValue::from_text("water_pressure 1.5").unwrap_err(),
        BsbError::Field(FieldError::InvalidFieldValue)
    );
    assert_eq!(
        FieldValue::from_text("no_such_field: 1").unwrap_err(),
        BsbError::Field(FieldError::UnknownField)
    );
    assert_eq!(
        FieldValue::from_text("warmwater_operating_mode: 3").unwrap_err(),
        BsbError::ValueError(bsb::ValueError::InvalidSetting)
    );
    let fv = FieldValue::from_text("warmwater_operating_mode: 2").unwrap();
    assert_eq!(fv.field_id(), 222103850);
    assert_eq!(fv.encode(), vec![0, 2]);
}

#[test]
fn field_value_text_round_trip() {
    for (id, payload) in [
        (87890416u32, vec![0u8, 0xff, 0x9c]),
        (0x313d052f, vec![0, 5, 192]),
        (222103850, vec![0, 1]),
    ] {
        let fv = FieldValue::from_frame(&Frame::new(0, 0, 7, id, payload.clone())).unwrap();
        let text = fv.to_string();
        assert_eq!(FieldValue::from_text(&text).unwrap(), fv);
        assert_eq!(fv.encode(), payload);
    }
}

#[test]
fn default_schedule_has_no_flag() {
    let fv = FieldValue::from_text("warmwater_operating_mode: 1").unwrap();
    assert_eq!(fv.typed_value().flag(), Some(0));
    let t = TypedValue::from_str("", Datatype::Schedule).unwrap();
    assert_eq!(t.flag(), None);
    assert_eq!(t.value(), &Value::Schedule(vec![]));
}
