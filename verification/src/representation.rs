//! How numbers, values and failures are held and written: laws on numerals, doubles,
//! conversions, views and paths.

use ciborium::Value as CborValue;
use vstd::arithmetic::div_mod::{lemma_fundamental_div_mod, lemma_fundamental_div_mod_converse};
use vstd::arithmetic::power2::{lemma2_to64, lemma_pow2_pos, lemma_pow2_unfold, pow2};
use vstd::float::FloatBitsProperties;
use vstd::prelude::*;

use crate::cbor::{cbor_integer, double_item, double_text};
use crate::chosen_name;
use crate::double::{scaled_magnitude, Double};
use crate::engine::Ctx;
use crate::error::{errors_view, rendered_path, ErrorView, PathSeg, SegView, ValidationError};
use crate::ir::IrModule;
use crate::json::{json_tree, node_tree, JsonNode, JsonTree};
use crate::text::{decimal, numeral};
use crate::value::{cbor_view, integer_view, json_view, settled_view, value_view, Value, ValueView};

verus! {

// Numerals.

/// The number that decimal digits stand for, each digit by its place.
pub open spec fn number_of(digits: Seq<char>) -> int
    decreases digits.len(),
{
    if digits.len() == 0 {
        0
    } else {
        10 * number_of(digits.drop_last()) + (digits.last() as int - '0' as int)
    }
}

/// A numeral is made of decimal digits, begins with 0 only where it is that one digit,
/// and stands for its number.
pub proof fn numeral_stands_for_its_number(n: nat)
    ensures
        numeral(n).len() > 0,
        forall|i: int| 0 <= i < numeral(n).len() ==> '0' <= #[trigger] numeral(n)[i] <= '9',
        numeral(n).len() > 1 ==> numeral(n)[0] != '0',
        number_of(numeral(n)) == n,
    decreases n,
{
    let s = numeral(n);
    if n < 10 {
        assert(s.drop_last() =~= seq![]);
        assert(number_of(s.drop_last()) == 0);
    } else {
        numeral_stands_for_its_number(n / 10);
        assert(s.drop_last() =~= numeral(n / 10));
        if numeral(n / 10).len() == 1 {
            let first = numeral(n / 10);
            assert(first.drop_last() =~= seq![]);
            assert(number_of(first.drop_last()) == 0);
            assert(number_of(first) == first[0] as int - '0' as int);
        }
    }
}

/// A negative integer is written as its opposite behind a minus sign, any other as its
/// numeral, and so no two integers are written alike.
pub proof fn integers_are_written_apart(a: int, b: int)
    ensures
        a < 0 ==> decimal(a) == seq!['-'] + decimal(-a),
        a >= 0 ==> decimal(a) == numeral(a as nat),
        decimal(a) == decimal(b) ==> a == b,
{
    let x = (if a < 0 {
        -a
    } else {
        a
    }) as nat;
    let y = (if b < 0 {
        -b
    } else {
        b
    }) as nat;
    numeral_stands_for_its_number(x);
    numeral_stands_for_its_number(y);
    if decimal(a) == decimal(b) {
        assert('0' <= numeral(x)[0]);
        assert('0' <= numeral(y)[0]);
        if a < 0 {
            assert(decimal(a)[0] == '-');
        } else {
            assert(decimal(a)[0] == numeral(x)[0]);
        }
        if b < 0 {
            assert(decimal(b)[0] == '-');
        } else {
            assert(decimal(b)[0] == numeral(y)[0]);
        }
        if a < 0 {
            assert(decimal(a).skip(1) =~= numeral(x));
            assert(decimal(b).skip(1) =~= numeral(y));
        }
    }
}

// Doubles.

/// The magnitudes up to 2^53 units are the fields themselves, and from 2^52 on another
/// 2^52 fields further the magnitude has doubled.
pub proof fn magnitudes_double(field: int)
    requires
        0 <= field,
    ensures
        field < 0x20_0000_0000_0000 ==> scaled_magnitude(field) == field,
        field >= 0x10_0000_0000_0000 ==> scaled_magnitude(field + 0x10_0000_0000_0000) == 2
            * scaled_magnitude(field),
{
    let unit: int = 0x10_0000_0000_0000;
    let exponent = field / unit;
    let fraction = field % unit;
    lemma_fundamental_div_mod(field, unit);
    if field < 2 * unit {
        lemma2_to64();
        assert(exponent == 0 || exponent == 1);
        if exponent == 1 {
            assert((fraction + unit) * pow2(0) == fraction + unit) by (nonlinear_arith)
                requires
                    pow2(0) == 1,
            ;
        }
    }
    if field >= unit {
        lemma_fundamental_div_mod_converse(field + unit, unit, exponent + 1, fraction);
        lemma_pow2_unfold(exponent as nat);
        let weight = pow2((exponent - 1) as nat) as int;
        assert((fraction + unit) * (2 * weight) == 2 * ((fraction + unit) * weight))
            by (nonlinear_arith);
    }
}

/// The upper half of the bit patterns holds the opposites of the lower half, and the
/// NaNs are the patterns whose magnitude field is above that of an infinity.
pub proof fn signs_and_nans_go_by_the_bits(bits: u64)
    ensures
        ({
            let number = Double { bits };
            &&& number.is_nan() <==> bits % 0x8000_0000_0000_0000 > 0x7ff0_0000_0000_0000
            &&& bits < 0x8000_0000_0000_0000 ==> number.scaled() == scaled_magnitude(bits as int)
            &&& bits >= 0x8000_0000_0000_0000 ==> number.scaled() == -scaled_magnitude(
                bits - 0x8000_0000_0000_0000,
            )
        }),
{
}

/// Of two doubles other than NaNs exactly one is less, or they are equal, as their
/// values are; with a NaN neither holds.
pub proof fn doubles_are_ordered(a: Double, b: Double)
    ensures
        !a.is_nan() && !b.is_nan() ==> {
            &&& a.less(b) <==> a.scaled() < b.scaled()
            &&& a.equal(b) <==> a.scaled() == b.scaled()
            &&& a.less(b) || a.equal(b) || b.less(a)
        },
        a.is_nan() || b.is_nan() ==> !a.less(b) && !a.equal(b),
        a.less(b) ==> !b.less(a) && !a.equal(b),
{
}

/// Without its fraction a number is the nearest integer towards 0, and the nearest
/// 128-bit integer where that lies outside 128 bits. A NaN counts as 0.
pub proof fn truncation_goes_towards_zero(number: Double)
    ensures
        number.is_nan() ==> number.truncated() == 0,
        !number.is_nan() ==> ({
            let whole = number.truncated();
            let one = pow2(1074) as int;
            let exact = number.scaled();
            &&& one > 0
            &&& 0 <= exact < (i128::MAX + 1) * one ==> whole * one <= exact < (whole + 1) * one
            &&& (i128::MIN - 1) * one < exact <= 0 ==> (whole - 1) * one < exact <= whole * one
            &&& exact >= (i128::MAX + 1) * one ==> whole == i128::MAX
            &&& exact <= (i128::MIN - 1) * one ==> whole == i128::MIN
        }),
{
    let one = pow2(1074) as int;
    lemma_pow2_pos(1074);
    if !number.is_nan() {
        let magnitude = scaled_magnitude(number.field());
        lemma_magnitude_is_not_negative(number.field());
        let whole = magnitude / one;
        lemma_fundamental_div_mod(magnitude, one);
        assert(one * whole == whole * one) by (nonlinear_arith);
        assert((whole + 1) * one == whole * one + one) by (nonlinear_arith);
        assert(whole >= 0) by (nonlinear_arith)
            requires
                whole == magnitude / one,
                magnitude >= 0,
                one > 0,
        ;
        let most: int = i128::MAX + 1;
        if whole >= most {
            assert(whole * one >= most * one) by (nonlinear_arith)
                requires
                    whole >= most,
                    one > 0,
            ;
        } else {
            assert((whole + 1) * one <= most * one) by (nonlinear_arith)
                requires
                    whole + 1 <= most,
                    one > 0,
            ;
        }
        if whole >= most + 1 {
            assert(whole * one >= (most + 1) * one) by (nonlinear_arith)
                requires
                    whole >= most + 1,
                    one > 0,
            ;
        } else {
            assert((whole + 1) * one <= (most + 1) * one) by (nonlinear_arith)
                requires
                    whole + 1 <= most + 1,
                    one > 0,
            ;
        }
        assert((i128::MIN - 1) * one == -((most + 1) * one)) by (nonlinear_arith)
            requires
                i128::MIN - 1 == -(most + 1),
        ;
        assert((-whole) * one == -(whole * one)) by (nonlinear_arith);
        assert((-whole - 1) * one == -((whole + 1) * one)) by (nonlinear_arith);
        assert(0 * one == 0 && (0 + 1) * one == one) by (nonlinear_arith);
        if magnitude == 0 {
            assert(whole == 0) by (nonlinear_arith)
                requires
                    whole == magnitude / one,
                    magnitude == 0,
                    one > 0,
            ;
        }
    }
}

proof fn lemma_magnitude_is_not_negative(field: int)
    requires
        0 <= field,
    ensures
        scaled_magnitude(field) >= 0,
{
    let unit: int = 0x10_0000_0000_0000;
    lemma_fundamental_div_mod(field, unit);
    if field / unit > 0 {
        let weight = pow2((field / unit - 1) as nat) as int;
        assert((field % unit + unit) * weight >= 0) by (nonlinear_arith)
            requires
                field % unit >= 0,
                unit > 0,
                weight >= 0,
        ;
    }
}

/// The integer 0 is the double whose bits are all 0, and opposite integers are opposite
/// bit patterns.
pub proof fn rounding_is_symmetric(n: int)
    requires
        0 < n <= 0x8000_0000_0000_0000_0000_0000_0000_0000,
    ensures
        Double::nearest(0).bits == 0,
        Double::nearest(n).bits < 0x8000_0000_0000_0000,
        Double::nearest(-n).bits == Double::nearest(n).bits + 0x8000_0000_0000_0000,
{
    crate::double::lemma_rounded_in_range(n as nat);
}

/// A double other than a NaN is written as `Display` writes it, and every NaN alike.
pub proof fn doubles_are_written(number: Double)
    ensures
        number.written() == (if number.bits % 0x8000_0000_0000_0000 > 0x7ff0_0000_0000_0000 {
            "NaN"@
        } else {
            double_text(number.bits)
        }),
{
}

/// Only the bits of a NaN are settled, and it stays a NaN.
pub proof fn only_a_nan_is_settled(number: Double)
    ensures
        number.is_nan() <==> number.settled().is_nan(),
        !number.is_nan() ==> number.settled() == number,
{
}

/// The item that encodes a double is its initial byte and then the bits, most
/// significant byte first.
pub proof fn double_item_holds_the_bits(bits: u64)
    ensures
        ({
            let item = double_item(bits);
            &&& item.len() == 9
            &&& item[0] == 0xfb
            &&& bits == ((((((item[1] as int * 256 + item[2]) * 256 + item[3]) * 256 + item[4])
                * 256 + item[5]) * 256 + item[6]) * 256 + item[7]) * 256 + item[8]
        }),
{
}

// Values.

/// A value stands for what it holds, part by part.
pub proof fn values_stand_for_what_they_hold(value: Value)
    ensures
        match value {
            Value::Null => value@ == ValueView::Null,
            Value::Bool(b) => value@ == ValueView::Bool(b),
            Value::Uint(n) => value@ == ValueView::Uint(n),
            Value::Int(n) => value@ == ValueView::Int(n),
            Value::Float(number) => value@ == ValueView::Float(number),
            Value::Text(text) => value@ == ValueView::Text(text@),
            Value::Bytes(bytes) => value@ == ValueView::Bytes(bytes@),
            Value::Array(items) => {
                &&& value@ matches ValueView::Array(view)
                &&& view.len() == items@.len()
                &&& forall|i: int| 0 <= i < items@.len() ==> #[trigger] view[i] == items@[i]@
            },
            Value::Mapping(entries) => {
                &&& value@ matches ValueView::Mapping(view)
                &&& view.len() == entries@.len()
                &&& forall|i: int|
                    0 <= i < entries@.len() ==> #[trigger] view[i] == (
                        entries@[i].0@,
                        entries@[i].1@,
                    )
            },
            Value::Tag(tag, inner) => value@ == ValueView::Tag(tag, Box::new(inner@)),
        },
{
    reveal_with_fuel(value_view, 2);
}

/// An integer is held unsigned where it is not negative and has 64 bits, signed where it
/// is negative and has 64 bits, and otherwise as the nearest double.
pub proof fn integers_are_held_by_size(n: int)
    ensures
        0 <= n <= 0xffff_ffff_ffff_ffff ==> integer_view(n) == ValueView::Uint(n as u64),
        -0x8000_0000_0000_0000 <= n < 0 ==> integer_view(n) == ValueView::Int(n as i64),
        n < -0x8000_0000_0000_0000 || n > 0xffff_ffff_ffff_ffff ==> integer_view(n)
            == ValueView::Float(Double::nearest(n)),
{
}

/// The value of a JSON document is that of its parts, in the document's order: a number
/// by its unsigned reading, else by its signed one, else as a double.
pub proof fn json_is_converted_part_by_part(tree: JsonTree)
    ensures
        match tree {
            JsonTree::Null => json_view(tree) == ValueView::Null,
            JsonTree::Bool(b) => json_view(tree) == ValueView::Bool(b),
            JsonTree::Number { unsigned, signed, double } => {
                &&& unsigned matches Some(n) ==> json_view(tree) == ValueView::Uint(n)
                &&& unsigned is None ==> (signed matches Some(n) ==> json_view(tree)
                    == ValueView::Int(n))
                &&& unsigned is None && signed is None ==> {
                    &&& json_view(tree) matches ValueView::Float(number)
                    &&& double matches Some(bits) ==> number.bits == bits
                    &&& double is None ==> number.is_nan()
                }
            },
            JsonTree::Text(text) => json_view(tree) == ValueView::Text(text),
            JsonTree::Array(trees) => {
                &&& json_view(tree) matches ValueView::Array(items)
                &&& items.len() == trees.len()
                &&& forall|i: int|
                    0 <= i < trees.len() ==> #[trigger] items[i] == json_view(trees[i])
            },
            JsonTree::Object(members) => {
                &&& json_view(tree) matches ValueView::Mapping(entries)
                &&& entries.len() == members.len()
                &&& forall|i: int|
                    0 <= i < members.len() ==> #[trigger] entries[i] == (
                        ValueView::Text(members[i].0),
                        json_view(members[i].1),
                    )
            },
        },
{
}

/// A JSON document holds what its top level holds, and the documents below it in their
/// order.
pub proof fn documents_hold_their_parts(node: JsonNode<'_>)
    ensures
        match node {
            JsonNode::Null => node_tree(node) == JsonTree::Null,
            JsonNode::Bool(b) => node_tree(node) == JsonTree::Bool(b),
            JsonNode::Number { unsigned, signed, double } => node_tree(node) == (
            JsonTree::Number { unsigned, signed, double }),
            JsonNode::Text(text) => node_tree(node) == JsonTree::Text(text@),
            JsonNode::Array(items) => {
                &&& node_tree(node) matches JsonTree::Array(trees)
                &&& trees.len() == items@.len()
                &&& forall|i: int|
                    0 <= i < items@.len() ==> #[trigger] trees[i] == json_tree(items@[i])
            },
            JsonNode::Object(members) => {
                &&& node_tree(node) matches JsonTree::Object(trees)
                &&& trees.len() == members@.len()
                &&& forall|i: int|
                    0 <= i < members@.len() ==> #[trigger] trees[i] == (
                        members@[i].0@,
                        json_tree(*members@[i].1),
                    )
            },
        },
{
}

/// The value of a CBOR item is that of its parts, in the item's order.
pub proof fn cbor_is_converted_part_by_part(item: CborValue)
    ensures
        match item {
            CborValue::Integer(integer) => cbor_view(item) == integer_view(
                cbor_integer(integer) as int,
            ),
            CborValue::Bytes(bytes) => cbor_view(item) == ValueView::Bytes(bytes@),
            CborValue::Float(float) => cbor_view(item) matches ValueView::Float(number)
                && number.bits == float.to_bits_spec(),
            CborValue::Text(text) => cbor_view(item) == ValueView::Text(text@),
            CborValue::Bool(b) => cbor_view(item) == ValueView::Bool(b),
            CborValue::Null => cbor_view(item) == ValueView::Null,
            CborValue::Tag(tag, inner) => cbor_view(item) == ValueView::Tag(
                tag,
                Box::new(cbor_view(*inner)),
            ),
            CborValue::Array(items) => {
                &&& cbor_view(item) matches ValueView::Array(view)
                &&& view.len() == items@.len()
                &&& forall|i: int|
                    0 <= i < items@.len() ==> #[trigger] view[i] == cbor_view(items@[i])
            },
            CborValue::Map(entries) => {
                &&& cbor_view(item) matches ValueView::Mapping(view)
                &&& view.len() == entries@.len()
                &&& forall|i: int|
                    0 <= i < entries@.len() ==> #[trigger] view[i] == (
                        cbor_view(entries@[i].0),
                        cbor_view(entries@[i].1),
                    )
            },
            _ => true,
        },
{
    reveal_with_fuel(cbor_view, 2);
}

/// Settling the NaNs in a value changes nothing else in it.
pub proof fn only_nans_are_settled(v: ValueView)
    ensures
        match v {
            ValueView::Float(number) => settled_view(v) == ValueView::Float(number.settled()),
            ValueView::Array(items) => {
                &&& settled_view(v) matches ValueView::Array(same)
                &&& same.len() == items.len()
                &&& forall|i: int|
                    0 <= i < items.len() ==> #[trigger] same[i] == settled_view(items[i])
            },
            ValueView::Mapping(entries) => {
                &&& settled_view(v) matches ValueView::Mapping(same)
                &&& same.len() == entries.len()
                &&& forall|i: int|
                    0 <= i < entries.len() ==> #[trigger] same[i] == (
                        settled_view(entries[i].0),
                        settled_view(entries[i].1),
                    )
            },
            ValueView::Tag(tag, inner) => settled_view(v) == ValueView::Tag(
                tag,
                Box::new(settled_view(*inner)),
            ),
            _ => settled_view(v) == v,
        },
{
    reveal_with_fuel(settled_view, 2);
}

// Failures and paths.

/// A path is written from `$`, each step behind the ones before it: a field behind a
/// dot, an index in square brackets, a key in braces, a variant in angle brackets.
pub proof fn paths_are_written_step_by_step(path: Seq<SegView>, step: SegView)
    ensures
        rendered_path(seq![]) == "$"@,
        rendered_path(path.push(step)) == rendered_path(path) + (match step {
            SegView::Field(name) => "."@ + name,
            SegView::Index(i) => "["@ + decimal(i as int) + "]"@,
            SegView::Key(key) => "{"@ + key + "}"@,
            SegView::Variant(name) => "<"@ + name + ">"@,
        }),
{
    assert(rendered_path(seq![]) =~= "$"@);
    assert(path.push(step).drop_last() =~= path);
    assert(rendered_path(path.push(step)) =~= rendered_path(path) + step.rendered());
}

/// A list of failures reports each of them in order, by all the steps of its path and
/// by its message.
pub proof fn failures_report_what_they_hold(errors: Seq<ValidationError>)
    ensures
        errors_view(errors).len() == errors.len(),
        forall|i: int|
            0 <= i < errors.len() ==> {
                let shown = #[trigger] errors_view(errors)[i];
                &&& shown.message == errors[i].message@
                &&& shown.path.len() == errors[i].path@.len()
                &&& forall|j: int|
                    0 <= j < shown.path.len() ==> match errors[i].path@[j] {
                        PathSeg::Field(name) => #[trigger] shown.path[j] == SegView::Field(name@),
                        PathSeg::Index(k) => shown.path[j] == SegView::Index(k as nat),
                        PathSeg::Key(key) => shown.path[j] == SegView::Key(key@),
                        PathSeg::Variant(name) => shown.path[j] == SegView::Variant(name@),
                    }
            },
{
}

/// Reporting failures appends them to what has been reported and leaves the schema and
/// the depth as they are.
pub proof fn reports_are_appended(before: Ctx<'_>, after: Ctx<'_>, added: Seq<ErrorView>)
    ensures
        before.reports(after, added) <==> {
            &&& after.module == before.module
            &&& after.depth == before.depth
            &&& errors_view(after.errors@) == errors_view(before.errors@) + added
        },
{
}

/// The rule that a document is checked against is the one named, or the root type.
pub proof fn the_root_is_the_default(module: IrModule, name: &str)
    ensures
        chosen_name(module, Some(name)) == name@,
        chosen_name(module, None) == module.root@,
{
}

} // verus!
