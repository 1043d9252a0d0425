//! Canonical decoded-data model shared by the JSON and CBOR validation paths.
//!
//! CBOR's data model is a strict superset of JSON's, so
//! both formats decode into this one enum and [`crate::engine`] only has to
//! walk one representation instead of duplicating logic per format.

use ciborium::Value as CborValue;
use serde_json::Value as JsonValue;
use vstd::float::FloatBitsProperties;
use vstd::prelude::*;

use crate::cbor::{cbor_integer, float_bits, integer_value};
use crate::double::{Double, NOT_A_NUMBER};
use crate::json::{json_tree, node_tree, open_node, JsonNode, JsonTree};
use crate::laws::cbor_keeps_signs;

verus! {

/// A decoded JSON or CBOR data item.
#[derive(Debug, PartialEq)]
pub enum Value {
    Null,
    Bool(bool),
    /// Non-negative integer.
    Uint(u64),
    /// Negative integer (or an integer read from a source that doesn't
    /// distinguish sign, e.g. JSON, and happened to be negative).
    Int(i64),
    Float(Double),
    Text(String),
    /// Native CBOR byte string. JSON has no byte-string type; JSON input
    /// represents `bstr` fields as base64url text instead (see
    /// [`crate::engine`]'s primitive check).
    Bytes(Vec<u8>),
    Array(Vec<Value>),
    /// Key/value pairs in source order. JSON object keys are always
    /// [`Value::Text`]; CBOR map keys may be any `Value`.
    Mapping(Vec<(Value, Value)>),
    /// A CBOR tag (`#6.NN(...)`). Never produced from JSON input: JSON has
    /// no tag concept, so tagged types degrade to their inner type when
    /// validating JSON (see [`crate::engine`]).
    Tag(u64, Box<Value>),
}

/// What a [`Value`] stands for.
pub enum ValueView {
    Null,
    Bool(bool),
    Uint(u64),
    Int(i64),
    Float(Double),
    Text(Seq<char>),
    Bytes(Seq<u8>),
    Array(Seq<ValueView>),
    Mapping(Seq<(ValueView, ValueView)>),
    Tag(u64, Box<ValueView>),
}

impl View for Value {
    type V = ValueView;

    open spec fn view(&self) -> ValueView {
        value_view(*self)
    }
}

pub open spec fn value_view(value: Value) -> ValueView
    decreases value,
{
    match value {
        Value::Null => ValueView::Null,
        Value::Bool(b) => ValueView::Bool(b),
        Value::Uint(n) => ValueView::Uint(n),
        Value::Int(n) => ValueView::Int(n),
        Value::Float(number) => ValueView::Float(number),
        Value::Text(text) => ValueView::Text(text@),
        Value::Bytes(bytes) => ValueView::Bytes(bytes@),
        Value::Array(items) => ValueView::Array(items_view(items)),
        Value::Mapping(entries) => ValueView::Mapping(entries_view(entries)),
        Value::Tag(tag, inner) => ValueView::Tag(tag, Box::new(value_view(*inner))),
    }
}

pub open spec fn items_view(items: Vec<Value>) -> Seq<ValueView>
    decreases items,
{
    Seq::new(
        items@.len(),
        |i: int|
            if 0 <= i < items@.len() {
                value_view(items@[i])
            } else {
                ValueView::Null
            },
    )
}

pub open spec fn entries_view(entries: Vec<(Value, Value)>) -> Seq<(ValueView, ValueView)>
    decreases entries,
{
    Seq::new(
        entries@.len(),
        |i: int|
            if 0 <= i < entries@.len() {
                (value_view(entries@[i].0), value_view(entries@[i].1))
            } else {
                (ValueView::Null, ValueView::Null)
            },
    )
}

/// The value of an integer: unsigned where it fits, signed where it fits, and
/// otherwise the double nearest to it.
pub open spec fn integer_view(n: int) -> ValueView {
    if 0 <= n <= u64::MAX {
        ValueView::Uint(n as u64)
    } else if i64::MIN <= n < 0 {
        ValueView::Int(n as i64)
    } else {
        ValueView::Float(Double::nearest(n))
    }
}

/// The value of a JSON document.
pub open spec fn json_view(tree: JsonTree) -> ValueView
    decreases tree,
{
    match tree {
        JsonTree::Null => ValueView::Null,
        JsonTree::Bool(b) => ValueView::Bool(b),
        JsonTree::Number { unsigned, signed, double } => match (unsigned, signed, double) {
            (Some(n), _, _) => ValueView::Uint(n),
            (None, Some(n), _) => ValueView::Int(n),
            (None, None, Some(bits)) => ValueView::Float(Double { bits }),
            (None, None, None) => ValueView::Float(Double { bits: NOT_A_NUMBER }),
        },
        JsonTree::Text(text) => ValueView::Text(text),
        JsonTree::Array(items) => ValueView::Array(
            Seq::new(
                items.len(),
                |i: int|
                    if 0 <= i < items.len() {
                        json_view(items[i])
                    } else {
                        ValueView::Null
                    },
            ),
        ),
        JsonTree::Object(members) => ValueView::Mapping(
            Seq::new(
                members.len(),
                |i: int|
                    if 0 <= i < members.len() {
                        (ValueView::Text(members[i].0), json_view(members[i].1))
                    } else {
                        (ValueView::Null, ValueView::Null)
                    },
            ),
        ),
    }
}

/// The value of a CBOR data item.
pub open spec fn cbor_view(item: CborValue) -> ValueView
    decreases item,
{
    match item {
        CborValue::Integer(integer) => integer_view(cbor_integer(integer) as int),
        CborValue::Bytes(bytes) => ValueView::Bytes(bytes@),
        CborValue::Float(float) => ValueView::Float(Double { bits: float.to_bits_spec() }),
        CborValue::Text(text) => ValueView::Text(text@),
        CborValue::Bool(b) => ValueView::Bool(b),
        CborValue::Null => ValueView::Null,
        CborValue::Tag(tag, inner) => ValueView::Tag(tag, Box::new(cbor_view(*inner))),
        CborValue::Array(items) => ValueView::Array(cbor_items_view(items)),
        CborValue::Map(entries) => ValueView::Mapping(cbor_entries_view(entries)),
        _ => ValueView::Null,
    }
}

pub open spec fn cbor_items_view(items: Vec<CborValue>) -> Seq<ValueView>
    decreases items,
{
    Seq::new(
        items@.len(),
        |i: int|
            if 0 <= i < items@.len() {
                cbor_view(items@[i])
            } else {
                ValueView::Null
            },
    )
}

pub open spec fn cbor_entries_view(entries: Vec<(CborValue, CborValue)>) -> Seq<
    (ValueView, ValueView),
>
    decreases entries,
{
    Seq::new(
        entries@.len(),
        |i: int|
            if 0 <= i < entries@.len() {
                (cbor_view(entries@[i].0), cbor_view(entries@[i].1))
            } else {
                (ValueView::Null, ValueView::Null)
            },
    )
}

/// The same value, every NaN in it as the quiet one, without sign and payload.
pub open spec fn settled_view(v: ValueView) -> ValueView
    decreases v,
{
    match v {
        ValueView::Float(number) => ValueView::Float(number.settled()),
        ValueView::Array(items) => ValueView::Array(settled_items(items)),
        ValueView::Mapping(entries) => ValueView::Mapping(settled_entries(entries)),
        ValueView::Tag(tag, inner) => ValueView::Tag(tag, Box::new(settled_view(*inner))),
        _ => v,
    }
}

pub open spec fn settled_items(items: Seq<ValueView>) -> Seq<ValueView>
    decreases items,
{
    Seq::new(
        items.len(),
        |i: int|
            if 0 <= i < items.len() {
                settled_view(items[i])
            } else {
                ValueView::Null
            },
    )
}

pub open spec fn settled_entries(entries: Seq<(ValueView, ValueView)>) -> Seq<
    (ValueView, ValueView),
>
    decreases entries,
{
    Seq::new(
        entries.len(),
        |i: int|
            if 0 <= i < entries.len() {
                (settled_view(entries[i].0), settled_view(entries[i].1))
            } else {
                (ValueView::Null, ValueView::Null)
            },
    )
}

/// Every `Int` in a value, at any depth and map keys included, is negative: what is
/// not negative is held as an `Uint`.
pub open spec fn only_negative_is_signed(v: ValueView) -> bool
    decreases v,
{
    match v {
        ValueView::Int(n) => n < 0,
        ValueView::Array(items) => forall|i: int|
            0 <= i < items.len() ==> only_negative_is_signed(#[trigger] items[i]),
        ValueView::Mapping(entries) => forall|i: int|
            0 <= i < entries.len() ==> only_negative_is_signed((#[trigger] entries[i]).0)
                && only_negative_is_signed(entries[i].1),
        ValueView::Tag(_, inner) => only_negative_is_signed(*inner),
        _ => true,
    }
}

/// The value of an integer of any size. Beyond the range of 64-bit integers it is
/// represented approximately, by the nearest double.
pub fn integer_to_value(n: i128) -> (value: Value)
    ensures
        value@ == integer_view(n as int),
{
    if 0 <= n && n <= u64::MAX as i128 {
        Value::Uint(n as u64)
    } else if i64::MIN as i128 <= n && n < 0 {
        Value::Int(n as i64)
    } else {
        Value::Float(Double::from_integer(n))
    }
}

fn json_items(items: &Vec<JsonValue>) -> (values: Vec<Value>)
    ensures
        items_view(values) == Seq::new(items@.len(), |i: int| json_view(json_tree(items@[i]))),
        forall|i: int|
            0 <= i < values@.len() ==> only_negative_is_signed((#[trigger] values@[i])@),
    decreases Seq::new(items@.len(), |i: int| json_tree(items@[i])),
{
    let mut values: Vec<Value> = Vec::new();
    let mut i: usize = 0;
    while i < items.len()
        invariant
            i <= items.len(),
            values.len() == i,
            forall|j: int|
                0 <= j < i ==> (#[trigger] values@[j])@ == json_view(json_tree(items@[j]))
                    && only_negative_is_signed(values@[j]@),
        decreases items.len() - i,
    {
        proof {
            let trees = Seq::new(items@.len(), |i: int| json_tree(items@[i]));
            assert(decreases_to!(trees => trees[i as int]));
        }
        values.push(Value::from_json(&items[i]));
        i += 1;
    }
    values
}

fn cbor_items(items: &Vec<CborValue>) -> (values: Vec<Value>)
    ensures
        items_view(values) == cbor_items_view(*items),
    decreases items,
{
    let mut values: Vec<Value> = Vec::new();
    let mut i: usize = 0;
    while i < items.len()
        invariant
            i <= items.len(),
            values.len() == i,
            forall|j: int| 0 <= j < i ==> (#[trigger] values@[j])@ == cbor_view(items@[j]),
        decreases items.len() - i,
    {
        assert(decreases_to!(*items => items@[i as int]));
        values.push(Value::from_cbor(&items[i]));
        i += 1;
    }
    values
}

fn cbor_entries(entries: &Vec<(CborValue, CborValue)>) -> (values: Vec<(Value, Value)>)
    ensures
        entries_view(values) == cbor_entries_view(*entries),
    decreases entries,
{
    let mut values: Vec<(Value, Value)> = Vec::new();
    let mut i: usize = 0;
    while i < entries.len()
        invariant
            i <= entries.len(),
            values.len() == i,
            forall|j: int|
                0 <= j < i ==> (#[trigger] values@[j]).0@ == cbor_view(entries@[j].0)
                    && values@[j].1@ == cbor_view(entries@[j].1),
        decreases entries.len() - i,
    {
        let entry = &entries[i];
        assert(decreases_to!(*entries => entries@[i as int].0));
        assert(decreases_to!(*entries => entries@[i as int].1));
        values.push((Value::from_cbor(&entry.0), Value::from_cbor(&entry.1)));
        i += 1;
    }
    values
}

impl Value {
    /// The value of a JSON document.
    pub fn from_json(document: &JsonValue) -> (value: Value)
        ensures
            value@ == json_view(json_tree(*document)),
            only_negative_is_signed(value@),
        decreases json_tree(*document),
    {
        match open_node(document) {
            JsonNode::Null => Value::Null,
            JsonNode::Bool(b) => Value::Bool(b),
            JsonNode::Number { unsigned, signed, double } => {
                if let Some(n) = unsigned {
                    Value::Uint(n)
                } else if let Some(n) = signed {
                    Value::Int(n)
                } else if let Some(bits) = double {
                    Value::Float(Double { bits })
                } else {
                    Value::Float(Double { bits: NOT_A_NUMBER })
                }
            },
            JsonNode::Text(text) => Value::Text(text.clone()),
            JsonNode::Array(items) => {
                let values = json_items(items);
                let value = Value::Array(values);
                proof {
                    assert(value@->Array_0 =~= json_view(json_tree(*document))->Array_0);
                    assert forall|j: int| 0 <= j < values@.len() implies only_negative_is_signed(
                        #[trigger] items_view(values)[j],
                    ) by {
                        assert(only_negative_is_signed(values@[j]@));
                    }
                }
                value
            },
            JsonNode::Object(members) => {
                let mut entries: Vec<(Value, Value)> = Vec::new();
                let mut i: usize = 0;
                while i < members.len()
                    invariant
                        i <= members.len(),
                        entries.len() == i,
                        json_tree(*document) == node_tree(JsonNode::Object(members)),
                        forall|j: int|
                            0 <= j < i ==> (#[trigger] entries@[j]).0@ == ValueView::Text(
                                members@[j].0@,
                            ) && entries@[j].1@ == json_view(json_tree(*members@[j].1))
                                && only_negative_is_signed(entries@[j].1@),
                    decreases members.len() - i,
                {
                    let member = &members[i];
                    proof {
                        let tree = json_tree(*document);
                        assert(decreases_to!(tree => tree->Object_0[i as int].1));
                    }
                    entries.push((Value::Text(member.0.clone()), Value::from_json(member.1)));
                    i += 1;
                }
                let value = Value::Mapping(entries);
                proof {
                    let tree = json_tree(*document);
                    let got = entries_view(entries);
                    let wanted = json_view(tree)->Mapping_0;
                    assert forall|j: int| 0 <= j < members@.len() implies got[j] == wanted[j] by {
                        assert(entries@[j].1@ == json_view(tree->Object_0[j].1));
                    }
                    assert(got =~= wanted);
                    assert forall|j: int| 0 <= j < got.len() implies only_negative_is_signed(
                        (#[trigger] got[j]).0,
                    ) && only_negative_is_signed(got[j].1) by {
                        assert(got[j] == (entries@[j].0@, entries@[j].1@));
                    }
                }
                value
            },
        }
    }

    /// The value of a CBOR data item.
    pub fn from_cbor(item: &CborValue) -> (value: Value)
        ensures
            value@ == cbor_view(*item),
            only_negative_is_signed(value@),
        decreases item,
    {
        proof {
            cbor_keeps_signs(*item);
        }
        match item {
            CborValue::Integer(integer) => integer_to_value(integer_value(integer)),
            CborValue::Bytes(bytes) => Value::Bytes(bytes.clone()),
            CborValue::Float(_) => match float_bits(item) {
                Some(bits) => Value::Float(Double { bits }),
                None => Value::Null,
            },
            CborValue::Text(text) => Value::Text(text.clone()),
            CborValue::Bool(b) => Value::Bool(*b),
            CborValue::Null => Value::Null,
            CborValue::Tag(tag, inner) => {
                let payload = Value::from_cbor(inner);
                Value::Tag(*tag, Box::new(payload))
            },
            CborValue::Array(items) => Value::Array(cbor_items(items)),
            CborValue::Map(entries) => Value::Mapping(cbor_entries(entries)),
            _ => Value::Null,
        }
    }
}

fn clone_items(items: &Vec<Value>) -> (copy: Vec<Value>)
    ensures
        items_view(copy) == items_view(*items),
    decreases items,
{
    let mut copy: Vec<Value> = Vec::new();
    let mut i: usize = 0;
    while i < items.len()
        invariant
            i <= items.len(),
            copy.len() == i,
            forall|j: int| 0 <= j < i ==> (#[trigger] copy@[j])@ == items@[j]@,
        decreases items.len() - i,
    {
        assert(decreases_to!(*items => items@[i as int]));
        copy.push(items[i].clone());
        i += 1;
    }
    copy
}

fn clone_entries(entries: &Vec<(Value, Value)>) -> (copy: Vec<(Value, Value)>)
    ensures
        entries_view(copy) == entries_view(*entries),
    decreases entries,
{
    let mut copy: Vec<(Value, Value)> = Vec::new();
    let mut i: usize = 0;
    while i < entries.len()
        invariant
            i <= entries.len(),
            copy.len() == i,
            forall|j: int|
                0 <= j < i ==> (#[trigger] copy@[j]).0@ == entries@[j].0@ && copy@[j].1@
                    == entries@[j].1@,
        decreases entries.len() - i,
    {
        let entry = &entries[i];
        assert(decreases_to!(*entries => entries@[i as int].0));
        assert(decreases_to!(*entries => entries@[i as int].1));
        copy.push((entry.0.clone(), entry.1.clone()));
        i += 1;
    }
    copy
}

impl Clone for Value {
    fn clone(&self) -> (copy: Self)
        ensures
            copy@ == self@,
        decreases self,
    {
        match self {
            Value::Null => Value::Null,
            Value::Bool(b) => Value::Bool(*b),
            Value::Uint(n) => Value::Uint(*n),
            Value::Int(n) => Value::Int(*n),
            Value::Float(number) => Value::Float(*number),
            Value::Text(text) => Value::Text(text.clone()),
            Value::Bytes(bytes) => Value::Bytes(bytes.clone()),
            Value::Array(items) => Value::Array(clone_items(items)),
            Value::Mapping(entries) => Value::Mapping(clone_entries(entries)),
            Value::Tag(tag, inner) => {
                let payload = (**inner).clone();
                Value::Tag(*tag, Box::new(payload))
            },
        }
    }
}

impl From<JsonValue> for Value {
    fn from(document: JsonValue) -> (value: Value)
        ensures
            value@ == json_view(json_tree(document)),
            only_negative_is_signed(value@),
    {
        Value::from_json(&document)
    }
}

impl vstd::std_specs::convert::FromSpecImpl<JsonValue> for Value {
    open spec fn obeys_from_spec() -> bool {
        false
    }

    open spec fn from_spec(document: JsonValue) -> Value {
        arbitrary()
    }
}

impl From<CborValue> for Value {
    fn from(item: CborValue) -> (value: Value)
        ensures
            value@ == cbor_view(item),
            only_negative_is_signed(value@),
    {
        Value::from_cbor(&item)
    }
}

impl vstd::std_specs::convert::FromSpecImpl<CborValue> for Value {
    open spec fn obeys_from_spec() -> bool {
        false
    }

    open spec fn from_spec(item: CborValue) -> Value {
        arbitrary()
    }
}

} // verus!
