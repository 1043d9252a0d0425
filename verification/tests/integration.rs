use cddlc_validate::ir::{
    AliasDef, ArrayDef, CborTag, Constraint, EnumDef, EnumVariant, FieldDef, FieldKey, IrModule,
    LiteralValue, Occurrence, Primitive, StructDef, TypeDef, TypeRef,
};
use cddlc_validate::{validate, ValidationError, Value};

fn prim(p: Primitive) -> TypeRef {
    TypeRef::Primitive(p)
}

fn named(name: &str) -> TypeRef {
    TypeRef::Named(name.to_owned())
}

fn field(name: &str, ty: TypeRef, required: bool, constraints: Vec<Constraint>) -> FieldDef {
    FieldDef {
        name: name.to_owned(),
        key: FieldKey::Text(name.to_owned()),
        ty,
        required,
        constraints,
    }
}

fn structure(name: &str, tagged: Option<CborTag>, fields: Vec<FieldDef>) -> TypeDef {
    TypeDef::Struct(StructDef { name: name.to_owned(), fields, tagged })
}

fn alias(
    name: &str,
    ty: TypeRef,
    tagged: Option<CborTag>,
    constraints: Vec<Constraint>,
) -> TypeDef {
    TypeDef::Alias(AliasDef { name: name.to_owned(), ty, constraints, tagged })
}

fn variant(name: &str, p: Primitive, literal: LiteralValue) -> EnumVariant {
    EnumVariant {
        name: name.to_owned(),
        ty: prim(p),
        constraints: vec![Constraint::Eq(literal)],
    }
}

fn text_enum(name: &str, words: &[&str]) -> TypeDef {
    let variants = words
        .iter()
        .map(|w| variant(w, Primitive::Tstr, LiteralValue::Text((*w).to_owned())))
        .collect();
    TypeDef::Enum(EnumDef { name: name.to_owned(), variants, tagged: None })
}

fn module(types: Vec<TypeDef>) -> IrModule {
    let root = match types.first() {
        Some(def) => def.name().clone(),
        None => String::new(),
    };
    IrModule { root, types }
}

fn json(s: &str) -> Value {
    let v: serde_json::Value = serde_json::from_str(s).expect("valid json fixture");
    Value::from(v)
}

fn assert_ok(module: &IrModule, ty: &str, value: &Value) {
    if let Err(errors) = validate(module, Some(ty), value) {
        panic!("expected '{ty}' to validate, got errors: {errors:?}");
    }
}

fn assert_fails(module: &IrModule, ty: &str, value: &Value) -> Vec<ValidationError> {
    match validate(module, Some(ty), value) {
        Ok(()) => panic!("expected '{ty}' to fail validation, but it passed"),
        Err(errors) => errors,
    }
}

// sensor  = { id: uint, label: tstr, value: float }
// reading = { sensor-id: uint, value: float, ? unit: tstr }
// device  = { id: uint, sensor: sensor }
fn structs() -> IrModule {
    module(vec![
        structure("sensor", None, vec![
            field("id", prim(Primitive::Uint), true, vec![]),
            field("label", prim(Primitive::Tstr), true, vec![]),
            field("value", prim(Primitive::Float), true, vec![]),
        ]),
        structure("reading", None, vec![
            field("sensor-id", prim(Primitive::Uint), true, vec![]),
            field("value", prim(Primitive::Float), true, vec![]),
            field("unit", prim(Primitive::Tstr), false, vec![]),
        ]),
        structure("device", None, vec![
            field("id", prim(Primitive::Uint), true, vec![]),
            field("sensor", named("sensor"), true, vec![]),
        ]),
    ])
}

#[test]
fn struct_valid() {
    let m = structs();
    assert_ok(&m, "sensor", &json(r#"{"id":1,"label":"a","value":1.5}"#));
}

#[test]
fn struct_missing_required_field() {
    let m = structs();
    let errors = assert_fails(&m, "sensor", &json(r#"{"id":1,"label":"a"}"#));
    assert!(errors.iter().any(|e| e.message.contains("missing required field 'value'")), "{errors:?}");
}

#[test]
fn struct_unknown_field_rejected() {
    let m = structs();
    let errors = assert_fails(&m, "sensor", &json(r#"{"id":1,"label":"a","value":1.5,"extra":true}"#));
    assert!(errors.iter().any(|e| e.message.contains("unknown field")), "{errors:?}");
}

#[test]
fn struct_wrong_field_type() {
    let m = structs();
    let errors = assert_fails(&m, "sensor", &json(r#"{"id":"nope","label":"a","value":1.5}"#));
    assert!(errors.iter().any(|e| e.path_string() == "$.id"), "{errors:?}");
}

#[test]
fn struct_optional_field_absent_and_present() {
    let m = structs();
    assert_ok(&m, "reading", &json(r#"{"sensor-id":1,"value":1.0}"#));
    assert_ok(&m, "reading", &json(r#"{"sensor-id":1,"value":1.0,"unit":"C"}"#));
}

#[test]
fn struct_nested_reference_and_path() {
    let m = structs();
    assert_ok(&m, "device", &json(r#"{"id":1,"sensor":{"id":2,"label":"x","value":1.0}}"#));

    let errors = assert_fails(&m, "device", &json(r#"{"id":1,"sensor":{"id":2,"label":"x","value":"bad"}}"#));
    assert!(errors.iter().any(|e| e.path_string() == "$.sensor.value"), "{errors:?}");
}

// device-id   = uint
// device-name = tstr .size 32
// temperature = -40..85
// payload     = bstr
fn aliases() -> IrModule {
    module(vec![
        alias("device-id", prim(Primitive::Uint), None, vec![]),
        alias("device-name", prim(Primitive::Tstr), None, vec![Constraint::SizeExact(32)]),
        alias("temperature", prim(Primitive::Int), None, vec![Constraint::ValueRangeInt {
            min: Some(-40),
            max: Some(85),
            inclusive: true,
        }]),
        alias("payload", prim(Primitive::Bstr), None, vec![]),
    ])
}

#[test]
fn alias_simple() {
    let m = aliases();
    assert_ok(&m, "device-id", &json("5"));
    assert_fails(&m, "device-id", &json(r#""five""#));
}

#[test]
fn alias_size_violation() {
    let m = aliases();
    let exactly_32 = "x".repeat(32);
    let too_short = "x".repeat(10);

    assert_ok(&m, "device-name", &json(&format!("\"{exactly_32}\"")));
    let errors = assert_fails(&m, "device-name", &json(&format!("\"{too_short}\"")));
    assert!(errors.iter().any(|e| e.message.contains(".size")), "{errors:?}");
}

#[test]
fn alias_range_constraint() {
    let m = aliases();
    assert_ok(&m, "temperature", &json("20"));
    assert_ok(&m, "temperature", &json("85"));
    assert_ok(&m, "temperature", &json("-40"));
    assert_fails(&m, "temperature", &json("86"));
    assert_fails(&m, "temperature", &json("-41"));
}

#[test]
fn alias_bstr_base64url() {
    let m = aliases();
    // base64url (no padding) for bytes [1,2,3]
    assert_ok(&m, "payload", &json(r#""AQID""#));
    assert_fails(&m, "payload", &json(r#""not base64url!!""#));
}

// status   = "ok" / "warn" / "error"
// priority = 1 / 2 / 3
fn enums() -> IrModule {
    let variants = vec![
        variant("low", Primitive::Uint, LiteralValue::Uint(1)),
        variant("medium", Primitive::Uint, LiteralValue::Uint(2)),
        variant("high", Primitive::Uint, LiteralValue::Uint(3)),
    ];
    module(vec![
        text_enum("status", &["ok", "warn", "error"]),
        TypeDef::Enum(EnumDef { name: "priority".to_owned(), variants, tagged: None }),
    ])
}

#[test]
fn enum_string_choice() {
    let m = enums();
    assert_ok(&m, "status", &json(r#""ok""#));
    assert_ok(&m, "status", &json(r#""warn""#));
    let errors = assert_fails(&m, "status", &json(r#""bad""#));
    assert!(errors.iter().any(|e| e.message.contains("matched no variant")), "{errors:?}");
}

#[test]
fn enum_integer_choice() {
    let m = enums();
    assert_ok(&m, "priority", &json("2"));
    assert_fails(&m, "priority", &json("5"));
}

// timestamp     = #6.1(uint)
// tagged-sensor = #6.100({ id: uint, value: float })
fn tagged() -> IrModule {
    module(vec![
        alias("timestamp", prim(Primitive::Uint), Some(CborTag(1)), vec![]),
        structure("tagged-sensor", Some(CborTag(100)), vec![
            field("id", prim(Primitive::Uint), true, vec![]),
            field("value", prim(Primitive::Float), true, vec![]),
        ]),
    ])
}

#[test]
fn tagged_alias_json_degrades_untagged() {
    let m = tagged();
    // JSON has no tag concept: a bare uint satisfies a tagged-uint alias.
    assert_ok(&m, "timestamp", &json("1234"));
}

#[test]
fn tagged_alias_cbor_checks_tag_number() {
    let m = tagged();
    let good = Value::from(ciborium::Value::Tag(1, Box::new(ciborium::Value::Integer(1234.into()))));
    assert_ok(&m, "timestamp", &good);

    let wrong_tag = Value::from(ciborium::Value::Tag(2, Box::new(ciborium::Value::Integer(1234.into()))));
    let errors = assert_fails(&m, "timestamp", &wrong_tag);
    assert!(errors.iter().any(|e| e.message.contains("expected CBOR tag 1")), "{errors:?}");
}

#[test]
fn tagged_struct_cbor() {
    let m = tagged();
    let cbor_struct = ciborium::Value::Tag(100, Box::new(ciborium::Value::Map(vec![
        (ciborium::Value::Text("id".into()), ciborium::Value::Integer(1.into())),
        (ciborium::Value::Text("value".into()), ciborium::Value::Float(1.5)),
    ])));
    assert_ok(&m, "tagged-sensor", &Value::from(cbor_struct));
}

#[test]
fn json_and_cbor_validate_identically() {
    let m = structs();

    let from_json = json(r#"{"id":1,"label":"a","value":1.5}"#);
    let from_cbor = Value::from(ciborium::Value::Map(vec![
        (ciborium::Value::Text("id".into()), ciborium::Value::Integer(1.into())),
        (ciborium::Value::Text("label".into()), ciborium::Value::Text("a".into())),
        (ciborium::Value::Text("value".into()), ciborium::Value::Float(1.5)),
    ]));

    assert_eq!(validate(&m, Some("sensor"), &from_json).is_ok(), true);
    assert_eq!(validate(&m, Some("sensor"), &from_cbor).is_ok(), true);
}

// sensor-message = {
//     version: uint, device-id: tstr .size 16, timestamp: uint, readings: [* reading]
// }
// reading     = { sensor-type: sensor-type, value: float, ? unit: tstr }
// sensor-type = "temperature" / "humidity" / "pressure"
fn iot_sensor() -> IrModule {
    module(vec![
        structure("sensor-message", None, vec![
            field("version", prim(Primitive::Uint), true, vec![]),
            field("device-id", prim(Primitive::Tstr), true, vec![Constraint::SizeExact(16)]),
            field("timestamp", prim(Primitive::Uint), true, vec![]),
            field("readings", named("readings"), true, vec![]),
        ]),
        TypeDef::Array(ArrayDef {
            name: "readings".to_owned(),
            element: named("reading"),
            occurrence: Occurrence::ZeroOrMore,
            tagged: None,
        }),
        structure("reading", None, vec![
            field("sensor-type", named("sensor-type"), true, vec![]),
            field("value", prim(Primitive::Float), true, vec![]),
            field("unit", prim(Primitive::Tstr), false, vec![]),
        ]),
        text_enum("sensor-type", &["temperature", "humidity", "pressure"]),
    ])
}

#[test]
fn iot_sensor_valid_message() {
    let m = iot_sensor();
    let doc = json(r#"{
        "version": 1,
        "device-id": "abcdefghijklmnop",
        "timestamp": 1234567890,
        "readings": [
            {"sensor-type": "temperature", "value": 21.5},
            {"sensor-type": "humidity", "value": 55.0, "unit": "%"}
        ]
    }"#);
    assert_ok(&m, "sensor-message", &doc);
}

#[test]
fn iot_sensor_device_id_wrong_size() {
    let m = iot_sensor();
    let doc = json(r#"{
        "version": 1,
        "device-id": "short",
        "timestamp": 1234567890,
        "readings": []
    }"#);
    let errors = assert_fails(&m, "sensor-message", &doc);
    assert!(errors.iter().any(|e| e.path_string() == "$.device-id"), "{errors:?}");
}

#[test]
fn iot_sensor_nested_enum_failure_has_full_path() {
    let m = iot_sensor();
    let doc = json(r#"{
        "version": 1,
        "device-id": "abcdefghijklmnop",
        "timestamp": 1234567890,
        "readings": [
            {"sensor-type": "not-a-real-type", "value": 21.5}
        ]
    }"#);
    let errors = assert_fails(&m, "sensor-message", &doc);
    assert!(errors.iter().any(|e| e.path_string() == "$.readings[0].sensor-type"), "{errors:?}");
}

#[test]
fn regexp_constraint() {
    // code = tstr .regexp "^[A-Z]{3}[0-9]{2}$"
    let m = module(vec![alias("code", prim(Primitive::Tstr), None, vec![Constraint::Regexp {
        pattern: "^[A-Z]{3}[0-9]{2}$".to_owned(),
    }])]);
    assert_ok(&m, "code", &json(r#""ABC12""#));
    assert_fails(&m, "code", &json(r#""abc12""#));
}

#[test]
fn cbor_embedded_constraint() {
    // inner = uint
    // wrapper = bstr .cbor inner
    let m = module(vec![
        alias("inner", prim(Primitive::Uint), None, vec![]),
        alias("wrapper", prim(Primitive::Bstr), None, vec![Constraint::CborEmbedded(Box::new(named("inner")))]),
    ]);

    let mut encoded = Vec::new();
    ciborium::into_writer(&ciborium::Value::Integer(42.into()), &mut encoded).unwrap();
    let b64 = base64::Engine::encode(&base64::engine::general_purpose::URL_SAFE_NO_PAD, &encoded);

    assert_ok(&m, "wrapper", &json(&format!(r#""{b64}""#)));

    let mut bad_encoded = Vec::new();
    ciborium::into_writer(&ciborium::Value::Text("not a uint".into()), &mut bad_encoded).unwrap();
    let bad_b64 = base64::Engine::encode(&base64::engine::general_purpose::URL_SAFE_NO_PAD, &bad_encoded);
    assert_fails(&m, "wrapper", &json(&format!(r#""{bad_b64}""#)));
}

#[test]
fn cborseq_embedded_constraint() {
    // inner = uint
    // wrapper = bstr .cborseq inner
    let m = module(vec![
        alias("inner", prim(Primitive::Uint), None, vec![]),
        alias("wrapper", prim(Primitive::Bstr), None, vec![Constraint::CborSeq(Box::new(named("inner")))]),
    ]);

    let mut encoded = Vec::new();
    for n in [1u64, 2, 3] {
        ciborium::into_writer(&ciborium::Value::Integer(n.into()), &mut encoded).unwrap();
    }
    let cbor = Value::from(ciborium::Value::Bytes(encoded));
    assert_ok(&m, "wrapper", &cbor);
}

#[test]
fn range_operator_enforces_both_bounds() {
    // byte = 0..255
    let m = module(vec![alias("byte", prim(Primitive::Uint), None, vec![Constraint::ValueRangeUint {
        min: Some(0),
        max: Some(255),
        inclusive: true,
    }])]);
    assert_ok(&m, "byte", &json("0"));
    assert_ok(&m, "byte", &json("255"));
    let errors = assert_fails(&m, "byte", &json("300"));
    assert!(errors.iter().any(|e| e.message.contains("above the maximum 255")), "{errors:?}");
}
