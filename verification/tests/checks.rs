use cddlc_validate::checks::{
    carried_bytes, check_cardinality, check_eq, check_match, check_ne, check_range,
    check_range_f64, check_regexp, check_size, describe_key, describe_literal, embedded_item,
    embedded_items, encoded_bytes, field_key_matches, fits, is_of, kind_name, literal_eq,
    primitive_name, unwrap_tag,
};
use cddlc_validate::ir::{CborTag, FieldKey, LiteralValue, Occurrence, Primitive};
use cddlc_validate::pattern::search;
use cddlc_validate::{Double, Value};

const PRIMITIVES: [(Primitive, &str); 12] = [
    (Primitive::Bool, "bool"),
    (Primitive::Null, "null"),
    (Primitive::Undefined, "undefined"),
    (Primitive::Uint, "uint"),
    (Primitive::Int, "int"),
    (Primitive::Float16, "float16"),
    (Primitive::Float32, "float32"),
    (Primitive::Float64, "float64"),
    (Primitive::Float, "float"),
    (Primitive::Bstr, "bstr"),
    (Primitive::Tstr, "tstr"),
    (Primitive::Any, "any"),
];

fn double(number: f64) -> Double {
    Double::from_bits(number.to_bits())
}

fn float(number: f64) -> Value {
    Value::Float(double(number))
}

fn text(s: &str) -> Value {
    Value::Text(s.to_owned())
}

fn said(message: &str) -> Option<String> {
    Some(message.to_owned())
}

#[test]
fn kinds_have_names() {
    let kinds = [
        (Value::Null, "null"),
        (Value::Bool(true), "bool"),
        (Value::Uint(1), "uint"),
        (Value::Int(-1), "int"),
        (float(1.5), "float"),
        (text("a"), "text"),
        (Value::Bytes(vec![1]), "bytes"),
        (Value::Array(vec![]), "array"),
        (Value::Mapping(vec![]), "map"),
        (Value::Tag(1, Box::new(Value::Null)), "tagged value"),
    ];
    for (value, name) in &kinds {
        assert_eq!(kind_name(value), *name);
    }
}

#[test]
fn primitives_have_names() {
    for (p, name) in PRIMITIVES {
        assert_eq!(primitive_name(p), name);
    }
}

#[test]
fn keys_and_literals_are_described() {
    assert_eq!(describe_key(&text("extra")), "'extra'");
    assert_eq!(describe_key(&Value::Uint(7)), "uint");
    assert_eq!(describe_literal(&LiteralValue::Bool(true)), "true");
    assert_eq!(describe_literal(&LiteralValue::Bool(false)), "false");
    assert_eq!(describe_literal(&LiteralValue::Null), "null");
    assert_eq!(describe_literal(&LiteralValue::Uint(u64::MAX)), "18446744073709551615");
    assert_eq!(describe_literal(&LiteralValue::Int(-5)), "-5");
    assert_eq!(describe_literal(&LiteralValue::Float(double(2.5))), "2.5");
    assert_eq!(describe_literal(&LiteralValue::Float(double(f64::NAN))), "NaN");
    assert_eq!(describe_literal(&LiteralValue::Bytes(vec![1, 2])), "<bytes>");
    assert_eq!(describe_literal(&LiteralValue::Text("on".to_owned())), "'on'");
}

#[test]
fn primitives_accept_their_kinds() {
    let values = [
        (Value::Null, vec!["null", "undefined", "any"]),
        (Value::Bool(false), vec!["bool", "any"]),
        (Value::Uint(1), vec!["uint", "int", "float16", "float32", "float64", "float", "any"]),
        (Value::Int(-1), vec!["int", "float16", "float32", "float64", "float", "any"]),
        (float(0.5), vec!["float16", "float32", "float64", "float", "any"]),
        (text("AQID"), vec!["tstr", "bstr", "any"]),
        (text("not base64url!!"), vec!["tstr", "any"]),
        (Value::Bytes(vec![1]), vec!["bstr", "any"]),
        (Value::Array(vec![]), vec!["any"]),
        (Value::Mapping(vec![]), vec!["any"]),
        (Value::Tag(1, Box::new(Value::Bool(true))), vec!["any"]),
    ];
    for (value, accepting) in &values {
        for (p, name) in PRIMITIVES {
            let ok = is_of(p, value, &encoded_bytes(value));
            assert_eq!(ok, accepting.contains(&name), "{name} on {value:?}");
        }
    }
}

#[test]
fn texts_encode_bytes() {
    assert_eq!(encoded_bytes(&text("AQID")), Some(vec![1, 2, 3]));
    assert_eq!(encoded_bytes(&text("-_8")), Some(vec![0xfb, 0xff]));
    assert_eq!(encoded_bytes(&text("")), Some(vec![]));
    // Neither padding nor the letters of plain base64 belong to the alphabet.
    assert_eq!(encoded_bytes(&text("AQI=")), None);
    assert_eq!(encoded_bytes(&text("+/8")), None);
    assert_eq!(encoded_bytes(&text("AQ==")), None);
    assert_eq!(encoded_bytes(&text("A=QI")), None);
    assert_eq!(encoded_bytes(&text("AQI\u{e9}")), None);
    // One character is left over, or bits behind the last byte are set.
    assert_eq!(encoded_bytes(&text("A")), None);
    assert_eq!(encoded_bytes(&text("AQIDA")), None);
    assert_eq!(encoded_bytes(&text("AR")), None);
    assert_eq!(encoded_bytes(&text("AQJ")), None);
    assert_eq!(encoded_bytes(&Value::Bytes(vec![1, 2, 3])), None);
}

#[test]
fn encoded_bytes_read_back() {
    let alphabet: Vec<char> =
        "ABCDEFGHIJKLMNOPQRSTUVWXYZabcdefghijklmnopqrstuvwxyz0123456789-_".chars().collect();
    for len in 0..70usize {
        let bytes: Vec<u8> = (0..len).map(|i| (i * 89 + len * 31) as u8).collect();
        let at = |i: usize| *bytes.get(i).unwrap_or(&0) as usize;
        let word: String = (0..(8 * len + 5) / 6)
            .map(|i| {
                let (a, b, c) = (at(i / 4 * 3), at(i / 4 * 3 + 1), at(i / 4 * 3 + 2));
                alphabet[match i % 4 {
                    0 => a / 4,
                    1 => a % 4 * 16 + b / 16,
                    2 => b % 16 * 4 + c / 64,
                    _ => c % 64,
                }]
            })
            .collect();
        assert_eq!(encoded_bytes(&text(&word)), Some(bytes));
    }
}

#[test]
fn a_nan_is_read_as_a_nan() {
    let items: [&[u8]; 3] = [
        &[0xf9, 0x7e, 0x01],
        &[0xfa, 0xff, 0xc0, 0x00, 0x01],
        &[0xfb, 0x7f, 0xf8, 0, 0, 0, 0, 0, 7],
    ];
    for item in items {
        match embedded_item(&item.to_vec()) {
            Ok(Value::Float(number)) => assert!(number.is_not_a_number()),
            other => panic!("{other:?}"),
        }
    }
}

#[test]
fn literals_equal_their_values() {
    let eq = |literal: LiteralValue, value: Value| {
        let encoded = encoded_bytes(&value);
        literal_eq(&literal, &value, &encoded)
    };
    assert!(eq(LiteralValue::Bool(true), Value::Bool(true)));
    assert!(!eq(LiteralValue::Bool(true), Value::Bool(false)));
    assert!(eq(LiteralValue::Null, Value::Null));
    assert!(!eq(LiteralValue::Null, Value::Bool(false)));
    assert!(eq(LiteralValue::Uint(3), Value::Uint(3)));
    assert!(eq(LiteralValue::Uint(3), Value::Int(3)));
    assert!(!eq(LiteralValue::Uint(u64::MAX), Value::Int(-1)));
    assert!(eq(LiteralValue::Int(3), Value::Uint(3)));
    assert!(eq(LiteralValue::Int(-3), Value::Int(-3)));
    assert!(!eq(LiteralValue::Int(-1), Value::Uint(u64::MAX)));
    assert!(!eq(LiteralValue::Uint(3), float(3.0)));
    assert!(eq(LiteralValue::Float(double(0.0)), float(-0.0)));
    assert!(!eq(LiteralValue::Float(double(f64::NAN)), float(f64::NAN)));
    assert!(!eq(LiteralValue::Float(double(3.0)), Value::Uint(3)));
    assert!(eq(LiteralValue::Text("a".to_owned()), text("a")));
    assert!(!eq(LiteralValue::Text("a".to_owned()), text("ab")));
    assert!(eq(LiteralValue::Bytes(vec![1, 2, 3]), Value::Bytes(vec![1, 2, 3])));
    assert!(!eq(LiteralValue::Bytes(vec![1, 2, 3]), Value::Bytes(vec![1, 2])));
    assert!(!eq(LiteralValue::Bytes(vec![1, 2, 3]), Value::Bytes(vec![1, 2, 4])));
    assert!(eq(LiteralValue::Bytes(vec![1, 2, 3]), text("AQID")));
    assert!(!eq(LiteralValue::Bytes(vec![1, 2, 3]), text("AQIE")));
    assert!(!eq(LiteralValue::Bytes(vec![1, 2, 3]), text("not base64url!!")));
}

#[test]
fn keys_match_by_text_or_integer() {
    let name = FieldKey::Text("id".to_owned());
    assert!(field_key_matches(&name, &text("id")));
    assert!(!field_key_matches(&name, &text("ID")));
    assert!(!field_key_matches(&name, &Value::Uint(1)));
    assert!(field_key_matches(&FieldKey::Int(5), &Value::Int(5)));
    assert!(field_key_matches(&FieldKey::Int(5), &Value::Uint(5)));
    assert!(!field_key_matches(&FieldKey::Int(-1), &Value::Uint(u64::MAX)));
    assert!(field_key_matches(&FieldKey::Int(-1), &Value::Int(-1)));
    assert!(field_key_matches(&FieldKey::Uint(5), &Value::Uint(5)));
    assert!(field_key_matches(&FieldKey::Uint(5), &Value::Int(5)));
    assert!(!field_key_matches(&FieldKey::Uint(u64::MAX), &Value::Int(-1)));
    assert!(!field_key_matches(&FieldKey::Uint(5), &text("5")));
}

#[test]
fn signed_and_unsigned_integers_are_one() {
    for n in [0u64, 1, 500, i64::MAX as u64] {
        for key in [FieldKey::Uint(n), FieldKey::Int(n as i64), FieldKey::Uint(9)] {
            assert_eq!(
                field_key_matches(&key, &Value::Uint(n)),
                field_key_matches(&key, &Value::Int(n as i64)),
            );
        }
        for literal in [LiteralValue::Uint(n), LiteralValue::Int(n as i64), LiteralValue::Int(9)] {
            assert_eq!(
                literal_eq(&literal, &Value::Uint(n), &None),
                literal_eq(&literal, &Value::Int(n as i64), &None),
            );
        }
    }
}

#[test]
fn tags_are_taken_off() {
    let tagged = Value::Tag(1, Box::new(Value::Uint(5)));
    assert_eq!(unwrap_tag(Some(CborTag(1)), &tagged), Ok(&Value::Uint(5)));
    assert_eq!(unwrap_tag(None, &tagged), Ok(&tagged));
    assert_eq!(unwrap_tag(Some(CborTag(1)), &Value::Uint(5)), Ok(&Value::Uint(5)));
    assert_eq!(
        unwrap_tag(Some(CborTag(24)), &tagged),
        Err("expected CBOR tag 24, found tag 1".to_owned()),
    );
}

#[test]
fn integers_fit_in_bytes() {
    assert!(fits(0, 0, true));
    assert!(!fits(1, 0, true));
    assert!(fits(255, 1, true));
    assert!(!fits(256, 1, true));
    assert!(!fits(-1, 1, true));
    assert!(fits(-1, 0, false));
    assert!(!fits(-2, 0, false));
    assert!(!fits(-1, 0, true));
    assert!(fits(0, 0, false));
    assert!(!fits(1, 0, false));
    assert!(fits(127, 1, false));
    assert!(!fits(128, 1, false));
    assert!(fits(-128, 1, false));
    assert!(!fits(-129, 1, false));
    assert!(fits(u64::MAX as i128, 8, true));
    assert!(!fits(u64::MAX as i128, 7, true));
    assert!(!fits(u64::MAX as i128, 8, false));
    assert!(fits((1i128 << 120) - 1, 15, true));
    assert!(!fits(1i128 << 120, 15, true));
    assert!(fits(i128::MAX, 16, true));
    assert!(fits(i128::MIN, 16, false));
    assert!(!fits(i128::MIN, 100, true));
    // A width beyond 32 bits is a width like any other.
    assert!(fits(5, 4294967296, true));
    assert!(fits(-300, 4294967297, false));
}

#[test]
fn size_bounds_the_width_of_an_integer() {
    let check = |base, value: &Value, bytes| check_size(Some(base), value, &None, Some(bytes), Some(bytes));
    assert_eq!(check(Primitive::Uint, &Value::Uint(255), 1), None);
    assert_eq!(
        check(Primitive::Uint, &Value::Uint(256), 1),
        said("value 256 does not fit in 1 byte(s)"),
    );
    assert_eq!(check(Primitive::Int, &Value::Int(-128), 1), None);
    assert_eq!(
        check(Primitive::Int, &Value::Int(-129), 1),
        said("value -129 does not fit in 1 byte(s)"),
    );
    assert_eq!(
        check(Primitive::Int, &text("a"), 1),
        said("expected an integer, found text"),
    );
    // A lower bound alone says nothing about an integer.
    assert_eq!(
        check_size(Some(Primitive::Uint), &Value::Uint(1), &None, Some(4), None),
        None,
    );
    // The base type decides, not the value.
    assert_eq!(
        check_size(Some(Primitive::Any), &Value::Uint(1), &None, Some(4), None),
        said(".size constraint does not apply to uint"),
    );
}

#[test]
fn size_measures_the_length_of_the_rest() {
    let size = |base: Option<Primitive>, value: Value, min, max| {
        let encoded = encoded_bytes(&value);
        check_size(base, &value, &encoded, min, max)
    };
    assert_eq!(size(None, Value::Bytes(vec![1, 2, 3]), Some(3), Some(3)), None);
    assert_eq!(
        size(None, Value::Bytes(vec![1, 2, 3]), Some(4), None),
        said(".size: expected at least 4, found 3"),
    );
    assert_eq!(
        size(None, Value::Array(vec![Value::Null; 3]), None, Some(2)),
        said(".size: expected at most 2, found 3"),
    );
    // A text is measured in UTF-8 bytes, or by the bytes it encodes as a `bstr`.
    assert_eq!(size(Some(Primitive::Tstr), text("\u{e9}"), Some(2), Some(2)), None);
    assert_eq!(size(Some(Primitive::Tstr), text("AQID"), Some(4), Some(4)), None);
    assert_eq!(size(Some(Primitive::Bstr), text("AQID"), Some(3), Some(3)), None);
    assert_eq!(size(Some(Primitive::Bstr), text("!!"), Some(2), Some(2)), None);
    assert_eq!(
        size(Some(Primitive::Tstr), Value::Mapping(vec![]), None, None),
        said(".size constraint does not apply to map"),
    );
}

#[test]
fn ranges_of_integers() {
    let check = |value: &Value, inclusive| check_range(value, Some(-40), Some(85), inclusive);
    assert_eq!(check(&Value::Int(-40), true), None);
    assert_eq!(check(&Value::Int(-40), false), None);
    assert_eq!(check(&Value::Int(-41), false), said("value -41 is below the minimum -40"));
    assert_eq!(check(&Value::Uint(85), true), None);
    assert_eq!(check(&Value::Uint(85), false), said("value 85 is above the maximum 85"));
    assert_eq!(check(&Value::Uint(84), false), None);
    assert_eq!(check(&float(85.9), true), None);
    assert_eq!(check(&float(-40.9), true), None);
    assert_eq!(check(&float(86.0), true), said("value 86 is above the maximum 85"));
    assert_eq!(check(&float(f64::NAN), true), None);
    assert_eq!(check(&text("5"), true), said("expected a number, found text"));
    assert_eq!(check_range(&Value::Uint(u64::MAX), None, None, false), None);
}

#[test]
fn ranges_of_doubles() {
    let check = |value: &Value, inclusive| {
        check_range_f64(value, Some(double(2.25)), Some(double(8.5)), inclusive)
    };
    assert_eq!(check(&float(2.25), false), None);
    assert_eq!(check(&float(1.5), true), said("value 1.5 is below the minimum 2.25"));
    assert_eq!(check(&float(8.5), true), None);
    assert_eq!(check(&float(8.5), false), said("value 8.5 is above the maximum 8.5"));
    assert_eq!(check(&Value::Uint(9), true), said("value 9 is above the maximum 8.5"));
    assert_eq!(check(&Value::Int(-1), true), said("value -1 is below the minimum 2.25"));
    assert_eq!(check(&float(f64::NAN), false), None);
    assert_eq!(check(&Value::Null, true), said("expected a number, found null"));
    // An integer is rounded before it is compared.
    let two53 = double(9007199254740992.0);
    assert_eq!(check_range_f64(&Value::Uint(9007199254740993), None, Some(two53), true), None);
}

#[test]
fn patterns_are_searched() {
    assert_eq!(search("b+", "abbc"), Ok(true));
    assert_eq!(search("^b", "abbc"), Ok(false));
    let failure = regex::Regex::new("(").unwrap_err().to_string();
    assert_eq!(search("(", "a"), Err(failure.clone()));

    assert_eq!(check_regexp(&text("abbc"), "b+"), None);
    assert_eq!(check_regexp(&text("abbc"), "^b"), said("'abbc' does not match pattern /^b/"));
    assert_eq!(
        check_regexp(&text("abbc"), "("),
        Some(format!("schema error: invalid .regexp pattern '(': {failure}")),
    );
    assert_eq!(
        check_regexp(&Value::Uint(1), "b"),
        said(".regexp constraint does not apply to uint"),
    );

    assert_eq!(check_match("x", "y", &Ok(true)), None);
    assert_eq!(check_match("x", "y", &Ok(false)), said("'x' does not match pattern /y/"));
    assert_eq!(
        check_match("x", "y", &Err("odd".to_owned())),
        said("schema error: invalid .regexp pattern 'y': odd"),
    );
}

#[test]
fn equality_and_inequality() {
    let on = LiteralValue::Text("on".to_owned());
    assert_eq!(check_eq(&on, &text("on"), &None), None);
    assert_eq!(
        check_eq(&on, &text("off"), &None),
        said("expected value equal to 'on', found text"),
    );
    assert_eq!(check_ne(&on, &text("off"), &None), None);
    assert_eq!(check_ne(&on, &text("on"), &None), said("value must not equal 'on'"));
}

#[test]
fn arrays_have_a_number_of_elements() {
    let bounded = |min, max| Occurrence::Bounded { min, max };
    for lenient in [Occurrence::Required, Occurrence::Optional, Occurrence::ZeroOrMore] {
        assert_eq!(check_cardinality(lenient, 0, "xs"), None);
        assert_eq!(check_cardinality(lenient, 9, "xs"), None);
    }
    assert_eq!(
        check_cardinality(Occurrence::OneOrMore, 0, "xs"),
        said("'xs' requires at least 1 element, found 0"),
    );
    assert_eq!(check_cardinality(Occurrence::OneOrMore, 1, "xs"), None);
    assert_eq!(
        check_cardinality(bounded(2, None), 1, "xs"),
        said("'xs' requires at least 2 element(s), found 1"),
    );
    assert_eq!(check_cardinality(bounded(2, None), 9, "xs"), None);
    assert_eq!(check_cardinality(bounded(2, Some(3)), 3, "xs"), None);
    assert_eq!(
        check_cardinality(bounded(2, Some(3)), 4, "xs"),
        said("'xs' allows at most 3 element(s), found 4"),
    );
    // So is a number of elements.
    assert_eq!(check_cardinality(bounded(1, None), 4294967296, "xs"), None);
    assert_eq!(
        check_cardinality(bounded(0, Some(3)), 4294967297, "xs"),
        said("'xs' allows at most 3 element(s), found 4294967297"),
    );
}

#[test]
fn embedded_cbor_is_carried_by_bytes() {
    assert_eq!(carried_bytes(&Value::Bytes(vec![1, 2]), None), Ok(vec![1, 2]));
    let word = text("AQID");
    assert_eq!(carried_bytes(&word, encoded_bytes(&word)), Ok(vec![1, 2, 3]));
    assert_eq!(
        carried_bytes(&text("!!"), None),
        Err("expected base64url-encoded bytes for embedded CBOR".to_owned()),
    );
    assert_eq!(
        carried_bytes(&Value::Bool(true), None),
        Err(".cbor/.cborseq constraint does not apply to bool".to_owned()),
    );
}

#[test]
fn embedded_items_are_read() {
    assert_eq!(embedded_item(&vec![0x18, 0x2a]), Ok(Value::Uint(42)));
    // Only the first item is read.
    assert_eq!(embedded_item(&vec![0x01, 0xff]), Ok(Value::Uint(1)));
    let nothing: &[u8] = &[];
    let failure = ciborium::from_reader::<ciborium::Value, _>(nothing).unwrap_err().to_string();
    assert_eq!(embedded_item(&vec![]), Err(failure));

    assert_eq!(embedded_items(&vec![]), (vec![], None));
    assert_eq!(
        embedded_items(&vec![0x01, 0x20, 0x61, 0x61]),
        (vec![Value::Uint(1), Value::Int(-1), text("a")], None),
    );
    let cut: &[u8] = &[0x18];
    let failure = ciborium::from_reader::<ciborium::Value, _>(cut).unwrap_err().to_string();
    assert_eq!(
        embedded_items(&vec![0x01, 0x02, 0x18]),
        (vec![Value::Uint(1), Value::Uint(2)], Some(failure)),
    );
}
