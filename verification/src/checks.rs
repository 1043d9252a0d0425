//! The checks that look at a single value: names for messages, keys, literals,
//! primitives and the constraints that need no further descent.

use vstd::arithmetic::power2::{
    lemma2_to64, lemma2_to64_rest, lemma_pow2_adds, lemma_pow2_strictly_increases,
};
use vstd::prelude::*;

use crate::base64url::decode_base64url;
use crate::cbor::read_item;
use crate::double::{power_of_two, Double};
use crate::ir::{CborTag, FieldKey, LiteralValue, Occurrence, Primitive};
use crate::pattern::search;
use crate::rules;
use crate::text::{concat2, concat3, concat4, concat5, concat6, decimal_text};
use crate::value::{cbor_view, items_view, settled_items, settled_view, Value, ValueView};

verus! {

/// The bytes of an optional byte string.
pub open spec fn bytes_view(bytes: Option<Vec<u8>>) -> Option<Seq<u8>> {
    match bytes {
        Some(bytes) => Some(bytes@),
        None => None,
    }
}

/// The characters of an optional text.
pub open spec fn text_view(text: Option<String>) -> Option<Seq<char>> {
    match text {
        Some(text) => Some(text@),
        None => None,
    }
}

/// Names the kind of a value.
pub fn kind_name(value: &Value) -> (name: &'static str)
    ensures
        name@ == rules::kind_name(value@),
{
    match value {
        Value::Null => "null",
        Value::Bool(_) => "bool",
        Value::Uint(_) => "uint",
        Value::Int(_) => "int",
        Value::Float(_) => "float",
        Value::Text(_) => "text",
        Value::Bytes(_) => "bytes",
        Value::Array(_) => "array",
        Value::Mapping(_) => "map",
        Value::Tag(_, _) => "tagged value",
    }
}

/// Names a primitive type.
pub fn primitive_name(p: Primitive) -> (name: &'static str)
    ensures
        name@ == rules::primitive_name(p),
{
    match p {
        Primitive::Bool => "bool",
        Primitive::Null => "null",
        Primitive::Undefined => "undefined",
        Primitive::Uint => "uint",
        Primitive::Int => "int",
        Primitive::Float16 => "float16",
        Primitive::Float32 => "float32",
        Primitive::Float64 => "float64",
        Primitive::Float => "float",
        Primitive::Bstr => "bstr",
        Primitive::Tstr => "tstr",
        Primitive::Any => "any",
    }
}

/// Shows a map key: a text in quotes, any other key by its kind.
pub fn describe_key(key: &Value) -> (text: String)
    ensures
        text@ == rules::described_key(key@),
{
    match key {
        Value::Text(name) => concat3("'", name.as_str(), "'"),
        _ => kind_name(key).to_owned(),
    }
}

/// Shows a literal.
pub fn describe_literal(literal: &LiteralValue) -> (text: String)
    ensures
        text@ == rules::described_literal(*literal),
{
    match literal {
        LiteralValue::Bool(b) => if *b {
            "true".to_owned()
        } else {
            "false".to_owned()
        },
        LiteralValue::Null => "null".to_owned(),
        LiteralValue::Uint(n) => decimal_text(*n as i128),
        LiteralValue::Int(n) => decimal_text(*n as i128),
        LiteralValue::Float(number) => number.text(),
        LiteralValue::Bytes(_) => "<bytes>".to_owned(),
        LiteralValue::Text(text) => concat3("'", text.as_str(), "'"),
    }
}

/// The integer that a value is.
pub fn integer_of(value: &Value) -> (n: Option<i128>)
    ensures
        rules::integer_of(value@) == (match n {
            Some(n) => Some(n as int),
            None => None,
        }),
{
    match value {
        Value::Uint(n) => Some(*n as i128),
        Value::Int(n) => Some(*n as i128),
        _ => None,
    }
}

/// The bytes that a text value encodes in base64url.
pub fn encoded_bytes(value: &Value) -> (bytes: Option<Vec<u8>>)
    ensures
        bytes_view(bytes) == rules::encoded_bytes(value@),
{
    match value {
        Value::Text(text) => decode_base64url(text.as_str()),
        _ => None,
    }
}

/// Whether a value is of a primitive type, given the bytes that it encodes if it is
/// a text.
pub fn is_of(p: Primitive, value: &Value, encoded: &Option<Vec<u8>>) -> (ok: bool)
    ensures
        ok == rules::is_of(p, value@, bytes_view(*encoded)),
{
    match (p, value) {
        (Primitive::Any, _) => true,
        (Primitive::Bool, Value::Bool(_)) => true,
        (Primitive::Null, Value::Null) => true,
        // Canonical `Value` has no distinct "undefined": both JSON and
        // ciborium's data model collapse it into Null.
        (Primitive::Undefined, Value::Null) => true,
        (Primitive::Uint, Value::Uint(_)) => true,
        (Primitive::Int, Value::Uint(_) | Value::Int(_)) => true,
        (
            Primitive::Float16 | Primitive::Float32 | Primitive::Float64 | Primitive::Float,
            Value::Float(_) | Value::Uint(_) | Value::Int(_),
        ) => true,
        (Primitive::Tstr, Value::Text(_)) => true,
        (Primitive::Bstr, Value::Bytes(_)) => true,
        (Primitive::Bstr, Value::Text(_)) => encoded.is_some(),
        _ => false,
    }
}

fn same_bytes(a: &Vec<u8>, b: &Vec<u8>) -> (same: bool)
    ensures
        same == (a@ == b@),
{
    if a.len() != b.len() {
        return false;
    }
    let mut i: usize = 0;
    while i < a.len()
        invariant
            i <= a.len(),
            a.len() == b.len(),
            forall|j: int| 0 <= j < i ==> a@[j] == b@[j],
        decreases a.len() - i,
    {
        if a[i] != b[i] {
            return false;
        }
        i += 1;
    }
    assert(a@ =~= b@);
    true
}

/// Whether a value is the one that a literal denotes, given the bytes that it
/// encodes if it is a text.
pub fn literal_eq(literal: &LiteralValue, value: &Value, encoded: &Option<Vec<u8>>) -> (eq: bool)
    ensures
        eq == rules::equals_literal(*literal, value@, bytes_view(*encoded)),
{
    match (literal, value) {
        (LiteralValue::Bool(a), Value::Bool(b)) => *a == *b,
        (LiteralValue::Null, Value::Null) => true,
        (LiteralValue::Uint(a), Value::Uint(b)) => *a == *b,
        (LiteralValue::Uint(a), Value::Int(b)) => *b >= 0 && (*b as u64) == *a,
        (LiteralValue::Int(a), Value::Int(b)) => *a == *b,
        (LiteralValue::Int(a), Value::Uint(b)) => *a >= 0 && (*a as u64) == *b,
        (LiteralValue::Float(a), Value::Float(b)) => a.is_equal(*b),
        (LiteralValue::Text(a), Value::Text(b)) => *a == *b,
        (LiteralValue::Bytes(a), Value::Bytes(b)) => same_bytes(a, b),
        (LiteralValue::Bytes(a), Value::Text(_)) => match encoded {
            Some(bytes) => same_bytes(bytes, a),
            None => false,
        },
        _ => false,
    }
}

/// Whether a map key is the one that a field is looked up under.
pub fn field_key_matches(field_key: &FieldKey, entry_key: &Value) -> (matches: bool)
    ensures
        matches == rules::is_key(*field_key, entry_key@),
{
    match (field_key, entry_key) {
        (FieldKey::Text(name), Value::Text(key)) => *name == *key,
        (FieldKey::Int(n), Value::Int(key)) => *n == *key,
        (FieldKey::Int(n), Value::Uint(key)) => *n >= 0 && (*n as u64) == *key,
        (FieldKey::Uint(n), Value::Uint(key)) => *n == *key,
        (FieldKey::Uint(n), Value::Int(key)) => *key >= 0 && (*key as u64) == *n,
        _ => false,
    }
}

/// Takes off an expected tag. A value without a tag of its own (JSON, or an
/// untagged CBOR item) degrades to itself; another tag gives a message.
pub fn unwrap_tag<'v>(tagged: Option<CborTag>, value: &'v Value) -> (payload: Result<
    &'v Value,
    String,
>)
    ensures
        rules::payload(tagged, value@) == (match payload {
            Ok(inner) => Ok(inner@),
            Err(message) => Err(message@),
        }),
{
    let tag = match tagged {
        Some(tag) => tag,
        None => return Ok(value),
    };
    match value {
        Value::Tag(number, inner) => {
            if *number == tag.0 {
                Ok(&**inner)
            } else {
                Err(
                    concat4(
                        "expected CBOR tag ",
                        decimal_text(tag.0 as i128).as_str(),
                        ", found tag ",
                        decimal_text(*number as i128).as_str(),
                    ),
                )
            }
        },
        _ => Ok(value),
    }
}

/// Whether an integer can be written in that many bytes.
pub fn fits(n: i128, bytes: usize, unsigned: bool) -> (fits: bool)
    ensures
        fits == rules::fits(n as int, bytes, unsigned),
{
    proof {
        lemma2_to64();
        lemma2_to64_rest();
    }
    if bytes == 0 {
        return n == 0 || (!unsigned && n == -1);
    }
    if bytes >= 16 {
        proof {
            let bits = (8 * bytes) as nat;
            lemma_pow2_adds(64, 63);
            lemma_pow2_strictly_increases(127, bits);
            if bits > 128 {
                lemma_pow2_strictly_increases(127, (bits - 1) as nat);
            }
        }
        return !unsigned || n >= 0;
    }
    proof {
        lemma_pow2_adds(64, 56);
        if bytes < 15 {
            lemma_pow2_strictly_increases((8 * bytes) as nat, 120);
        }
        lemma_pow2_strictly_increases((8 * bytes - 1) as nat, 120);
    }
    if unsigned {
        let limit: i128 = power_of_two(8 * bytes as u32) as i128;
        0 <= n && n < limit
    } else {
        let limit: i128 = power_of_two(8 * bytes as u32 - 1) as i128;
        -limit <= n && n < limit
    }
}

fn measured_size(base: Option<Primitive>, value: &Value, encoded: &Option<Vec<u8>>) -> (size: Option<
    usize,
>)
    ensures
        rules::measured_size(base, value@, bytes_view(*encoded)) == (match size {
            Some(size) => Some(size as nat),
            None => None,
        }),
{
    match value {
        Value::Bytes(bytes) => Some(bytes.len()),
        Value::Text(text) => match (base, encoded) {
            (Some(Primitive::Bstr), Some(bytes)) => Some(bytes.len()),
            _ => Some(text.as_str().as_bytes().len()),
        },
        Value::Array(items) => {
            assert(items_view(*items).len() == items@.len());
            Some(items.len())
        },
        _ => None,
    }
}

/// Checks `.size`, given the bytes that the value encodes if it is a text. On an
/// integer it bounds the byte-width representation, not a container length.
pub fn check_size(
    base: Option<Primitive>,
    value: &Value,
    encoded: &Option<Vec<u8>>,
    min: Option<usize>,
    max: Option<usize>,
) -> (failure: Option<String>)
    ensures
        text_view(failure) == rules::size_failure(base, value@, bytes_view(*encoded), min, max),
{
    let unsigned = matches!(base, Some(Primitive::Uint));
    if unsigned || matches!(base, Some(Primitive::Int)) {
        let n = match integer_of(value) {
            Some(n) => n,
            None => return Some(concat2("expected an integer, found ", kind_name(value))),
        };
        return match max {
            Some(bytes) => if fits(n, bytes, unsigned) {
                None
            } else {
                Some(
                    concat5(
                        "value ",
                        decimal_text(n).as_str(),
                        " does not fit in ",
                        decimal_text(bytes as i128).as_str(),
                        " byte(s)",
                    ),
                )
            },
            None => None,
        };
    }
    let size = match measured_size(base, value, encoded) {
        Some(size) => size,
        None => return Some(concat2(".size constraint does not apply to ", kind_name(value))),
    };
    if let Some(least) = min {
        if size < least {
            return Some(
                concat4(
                    ".size: expected at least ",
                    decimal_text(least as i128).as_str(),
                    ", found ",
                    decimal_text(size as i128).as_str(),
                ),
            );
        }
    }
    if let Some(most) = max {
        if size > most {
            return Some(
                concat4(
                    ".size: expected at most ",
                    decimal_text(most as i128).as_str(),
                    ", found ",
                    decimal_text(size as i128).as_str(),
                ),
            );
        }
    }
    None
}

/// Checks a range of integers. A float is compared without its fraction.
pub fn check_range(value: &Value, min: Option<i128>, max: Option<i128>, inclusive: bool) -> (failure:
    Option<String>)
    ensures
        text_view(failure) == rules::range_failure(
            value@,
            bound_view(min),
            bound_view(max),
            inclusive,
        ),
{
    let whole = match value {
        Value::Float(number) => Some(number.truncate()),
        _ => integer_of(value),
    };
    let n = match whole {
        Some(n) => n,
        None => return Some(concat2("expected a number, found ", kind_name(value))),
    };
    if let Some(low) = min {
        if n < low {
            return Some(
                concat4(
                    "value ",
                    decimal_text(n).as_str(),
                    " is below the minimum ",
                    decimal_text(low).as_str(),
                ),
            );
        }
    }
    if let Some(high) = max {
        if n > high || (!inclusive && n == high) {
            return Some(
                concat4(
                    "value ",
                    decimal_text(n).as_str(),
                    " is above the maximum ",
                    decimal_text(high).as_str(),
                ),
            );
        }
    }
    None
}

pub open spec fn bound_view(bound: Option<i128>) -> Option<int> {
    match bound {
        Some(n) => Some(n as int),
        None => None,
    }
}

/// Checks a range of doubles. An integer is rounded to the nearest double.
pub fn check_range_f64(
    value: &Value,
    min: Option<Double>,
    max: Option<Double>,
    inclusive: bool,
) -> (failure: Option<String>)
    ensures
        text_view(failure) == rules::double_range_failure(value@, min, max, inclusive),
{
    let number = match value {
        Value::Float(number) => Some(*number),
        _ => match integer_of(value) {
            Some(n) => Some(Double::from_integer(n)),
            None => None,
        },
    };
    let n = match number {
        Some(n) => n,
        None => return Some(concat2("expected a number, found ", kind_name(value))),
    };
    if let Some(low) = min {
        if n.is_less(low) {
            return Some(
                concat4(
                    "value ",
                    n.text().as_str(),
                    " is below the minimum ",
                    low.text().as_str(),
                ),
            );
        }
    }
    if let Some(high) = max {
        if high.is_less(n) || (!inclusive && n.is_equal(high)) {
            return Some(
                concat4(
                    "value ",
                    n.text().as_str(),
                    " is above the maximum ",
                    high.text().as_str(),
                ),
            );
        }
    }
    None
}

/// Checks a text against the outcome of searching it for a pattern.
pub fn check_match(text: &str, pattern: &str, outcome: &Result<bool, String>) -> (failure: Option<
    String,
>)
    ensures
        text_view(failure) == rules::match_failure(
            text@,
            pattern@,
            match *outcome {
                Ok(found) => Ok(found),
                Err(failure) => Err(failure@),
            },
        ),
{
    match outcome {
        Ok(found) => if *found {
            None
        } else {
            Some(concat5("'", text, "' does not match pattern /", pattern, "/"))
        },
        Err(failure) => Some(
            concat4(
                "schema error: invalid .regexp pattern '",
                pattern,
                "': ",
                failure.as_str(),
            ),
        ),
    }
}

/// Checks `.regexp`.
pub fn check_regexp(value: &Value, pattern: &str) -> (failure: Option<String>)
    ensures
        text_view(failure) == rules::regexp_failure(value@, pattern@),
{
    match value {
        Value::Text(text) => {
            let outcome = search(pattern, text.as_str());
            check_match(text.as_str(), pattern, &outcome)
        },
        _ => Some(concat2(".regexp constraint does not apply to ", kind_name(value))),
    }
}

/// Checks `.eq`, given the bytes that the value encodes if it is a text.
pub fn check_eq(literal: &LiteralValue, value: &Value, encoded: &Option<Vec<u8>>) -> (failure: Option<
    String,
>)
    ensures
        text_view(failure) == rules::equality_failure(*literal, value@, bytes_view(*encoded)),
{
    if literal_eq(literal, value, encoded) {
        None
    } else {
        Some(
            concat4(
                "expected value equal to ",
                describe_literal(literal).as_str(),
                ", found ",
                kind_name(value),
            ),
        )
    }
}

/// Checks `.ne`, given the bytes that the value encodes if it is a text.
pub fn check_ne(literal: &LiteralValue, value: &Value, encoded: &Option<Vec<u8>>) -> (failure: Option<
    String,
>)
    ensures
        text_view(failure) == rules::inequality_failure(*literal, value@, bytes_view(*encoded)),
{
    if literal_eq(literal, value, encoded) {
        Some(concat2("value must not equal ", describe_literal(literal).as_str()))
    } else {
        None
    }
}

/// Checks how many elements an array has.
pub fn check_cardinality(occurrence: Occurrence, len: usize, name: &str) -> (failure: Option<String>)
    ensures
        text_view(failure) == rules::cardinality_failure(occurrence, len as nat, name@),
{
    match occurrence {
        Occurrence::Required | Occurrence::Optional | Occurrence::ZeroOrMore => None,
        Occurrence::OneOrMore => if len < 1 {
            Some(concat3("'", name, "' requires at least 1 element, found 0"))
        } else {
            None
        },
        Occurrence::Bounded { min, max } => {
            if (len as u64) < min as u64 {
                return Some(
                    concat6(
                        "'",
                        name,
                        "' requires at least ",
                        decimal_text(min as i128).as_str(),
                        " element(s), found ",
                        decimal_text(len as i128).as_str(),
                    ),
                );
            }
            if let Some(most) = max {
                if len as u64 > most as u64 {
                    return Some(
                        concat6(
                            "'",
                            name,
                            "' allows at most ",
                            decimal_text(most as i128).as_str(),
                            " element(s), found ",
                            decimal_text(len as i128).as_str(),
                        ),
                    );
                }
            }
            None
        },
    }
}

/// The bytes in which `.cbor` and `.cborseq` look for items, given the bytes that
/// the value encodes if it is a text.
pub fn carried_bytes(value: &Value, encoded: Option<Vec<u8>>) -> (bytes: Result<Vec<u8>, String>)
    ensures
        rules::carried_bytes(value@, bytes_view(encoded)) == (match bytes {
            Ok(bytes) => Ok(bytes@),
            Err(message) => Err(message@),
        }),
{
    match value {
        Value::Bytes(bytes) => Ok(bytes.clone()),
        Value::Text(_) => match encoded {
            Some(bytes) => Ok(bytes),
            None => Err("expected base64url-encoded bytes for embedded CBOR".to_owned()),
        },
        _ => Err(
            concat2(".cbor/.cborseq constraint does not apply to ", kind_name(value)),
        ),
    }
}

/// Reads the one item that `.cbor` looks for. Sign and payload of a NaN in it are left
/// open.
pub fn embedded_item(bytes: &Vec<u8>) -> (item: Result<Value, String>)
    ensures
        rules::embedded_item(bytes@) == (match item {
            Ok(item) => Ok(settled_view(item@)),
            Err(failure) => Err(failure@),
        }),
{
    match read_item(bytes.as_slice()) {
        Ok((item, _)) => Ok(Value::from_cbor(&item)),
        Err(failure) => Err(failure),
    }
}

/// Reads the items that `.cborseq` looks for, up to the end of the bytes or to the
/// first failure. Sign and payload of a NaN in them are left open.
pub fn embedded_items(bytes: &Vec<u8>) -> (read: (Vec<Value>, Option<String>))
    ensures
        (settled_items(items_view(read.0)), text_view(read.1)) == rules::embedded_items(bytes@),
{
    let mut items: Vec<Value> = Vec::new();
    let mut rest: usize = bytes.len();
    assert(bytes@.skip(0) =~= bytes@);
    assert(settled_items(items_view(items)) =~= seq![]);
    while rest > 0
        invariant
            rest <= bytes.len(),
            rules::embedded_items(bytes@) == ({
                let tail = rules::embedded_items(bytes@.skip(bytes@.len() - rest));
                (settled_items(items_view(items)) + tail.0, tail.1)
            }),
        decreases rest,
    {
        let start = bytes.len() - rest;
        let ghost tail = bytes@.skip(start as int);
        let slice = vstd::slice::slice_subrange(bytes.as_slice(), start, bytes.len());
        assert(slice@ =~= tail);
        let ghost before = settled_items(items_view(items));
        match read_item(slice) {
            Ok((item, left)) => {
                items.push(Value::from_cbor(&item));
                proof {
                    let read = settled_view(cbor_view(item));
                    assert(settled_items(items_view(items)) =~= before.push(read));
                    assert(tail.skip(tail.len() - left) =~= bytes@.skip(bytes@.len() - left));
                    let further = rules::embedded_items(tail.skip(tail.len() - left)).0;
                    assert(before + (seq![read] + further) =~= before.push(read) + further);
                }
                rest = left;
            },
            Err(failure) => {
                assert(before + Seq::<ValueView>::empty() =~= before);
                return (items, Some(failure));
            },
        }
    }
    proof {
        assert(bytes@.skip(bytes@.len() as int).len() == 0);
        let read = settled_items(items_view(items));
        assert(read + Seq::<ValueView>::empty() =~= read);
    }
    (items, None)
}

} // verus!
