//! What primitives, literals and constraints ask of a value: laws stated on what the
//! value is, its kind and its number, text, bytes or elements, for every schema and
//! every value.

use vstd::arithmetic::power::{lemma_pow_multiplies, lemma_pow_positive, pow};
use vstd::arithmetic::power2::{lemma2_to64, lemma_pow2, lemma_pow2_unfold, pow2};
use vstd::prelude::*;
use vstd::utf8::encode_utf8;

use crate::base64url::{base64url, encoding, encoding_reads_back};
use crate::cbor::double_text;
use crate::conformance::{
    allows_count, constraint_holds, constraints_hold, ref_conforms,
    type_report_is_empty_iff_conforming,
};
use crate::double::Double;
use crate::error::{ErrorView, SegView};
use crate::ir::{
    AliasDef, CborTag, Constraint, FieldKey, IrModule, LiteralValue, Occurrence, Primitive, TypeDef,
    TypeRef,
};
use crate::pattern::{compiled, matches_in};
use crate::rules::{
    base_primitive, cardinality_failure, constraint_errors, described_key, described_literal,
    encoded_bytes, is_key, kind_name, payload, primitive_name, ref_errors, report, report_any,
    too_deep, MAX_DEPTH,
};
use crate::text::{decimal, numeral};
use crate::value::ValueView;

verus! {

// Reports and the words in them.

/// A report is one failure with that path and that message, an optional one none
/// where there is no message.
pub proof fn a_report_is_one_failure(path: Seq<SegView>, message: Seq<char>)
    ensures
        report(path, message).len() == 1,
        report(path, message)[0].path == path,
        report(path, message)[0].message == message,
        report_any(path, Some(message)) == report(path, message),
        report_any(path, None) == Seq::<ErrorView>::empty(),
{
}

/// A kind is named by its word, whatever the value holds.
pub proof fn kinds_are_named(v: ValueView)
    ensures
        v is Null ==> kind_name(v) == "null"@,
        v is Bool ==> kind_name(v) == "bool"@,
        v is Uint ==> kind_name(v) == "uint"@,
        v is Int ==> kind_name(v) == "int"@,
        v is Float ==> kind_name(v) == "float"@,
        v is Text ==> kind_name(v) == "text"@,
        v is Bytes ==> kind_name(v) == "bytes"@,
        v is Array ==> kind_name(v) == "array"@,
        v is Mapping ==> kind_name(v) == "map"@,
        v is Tag ==> kind_name(v) == "tagged value"@,
{
}

/// Two values are called the same exactly where they are of the same kind.
pub proof fn kinds_are_told_apart(a: ValueView, b: ValueView)
    ensures
        kind_name(a) == kind_name(b) <==> {
            &&& a is Null <==> b is Null
            &&& a is Bool <==> b is Bool
            &&& a is Uint <==> b is Uint
            &&& a is Int <==> b is Int
            &&& a is Float <==> b is Float
            &&& a is Text <==> b is Text
            &&& a is Bytes <==> b is Bytes
            &&& a is Array <==> b is Array
            &&& a is Mapping <==> b is Mapping
        },
{
    reveal_strlit("null");
    reveal_strlit("bool");
    reveal_strlit("uint");
    reveal_strlit("int");
    reveal_strlit("float");
    reveal_strlit("text");
    reveal_strlit("bytes");
    reveal_strlit("array");
    reveal_strlit("map");
    reveal_strlit("tagged value");
    assert("null"@.len() == 4 && "null"@[0] == 'n');
    assert("bool"@.len() == 4 && "bool"@[0] == 'b');
    assert("uint"@.len() == 4 && "uint"@[0] == 'u');
    assert("int"@.len() == 3 && "int"@[0] == 'i');
    assert("float"@.len() == 5 && "float"@[0] == 'f');
    assert("text"@.len() == 4 && "text"@[0] == 't');
    assert("bytes"@.len() == 5 && "bytes"@[0] == 'b');
    assert("array"@.len() == 5 && "array"@[0] == 'a');
    assert("map"@.len() == 3 && "map"@[0] == 'm');
    assert("tagged value"@.len() == 12);
}

/// A primitive is named by its word.
pub proof fn primitives_are_named()
    ensures
        primitive_name(Primitive::Bool) == "bool"@,
        primitive_name(Primitive::Null) == "null"@,
        primitive_name(Primitive::Undefined) == "undefined"@,
        primitive_name(Primitive::Uint) == "uint"@,
        primitive_name(Primitive::Int) == "int"@,
        primitive_name(Primitive::Float16) == "float16"@,
        primitive_name(Primitive::Float32) == "float32"@,
        primitive_name(Primitive::Float64) == "float64"@,
        primitive_name(Primitive::Float) == "float"@,
        primitive_name(Primitive::Bstr) == "bstr"@,
        primitive_name(Primitive::Tstr) == "tstr"@,
        primitive_name(Primitive::Any) == "any"@,
{
}

/// A text key is shown in quotes, so that two text keys are shown alike only where they
/// are equal; any other key is shown by its kind.
pub proof fn keys_are_shown(a: ValueView, b: ValueView)
    ensures
        a matches ValueView::Text(text) ==> described_key(a) == "'"@ + text + "'"@,
        a !is Text ==> described_key(a) == kind_name(a),
        a is Text && b is Text && described_key(a) == described_key(b) ==> a == b,
{
    if a is Text && b is Text && described_key(a) == described_key(b) {
        reveal_strlit("'");
        let x = a->Text_0;
        let y = b->Text_0;
        let shown = described_key(a);
        assert(shown.len() == x.len() + 2);
        assert(shown.len() == y.len() + 2);
        assert forall|i: int| 0 <= i < x.len() implies x[i] == y[i] by {
            assert(shown[i + 1] == x[i]);
            assert(shown[i + 1] == y[i]);
        }
        assert(x =~= y);
    }
}

/// A literal is shown by what it denotes: an integer by its numeral, whichever way it is
/// held.
pub proof fn literals_are_shown(literal: LiteralValue)
    ensures
        described_literal(literal) == (match literal {
            LiteralValue::Bool(b) => if b {
                "true"@
            } else {
                "false"@
            },
            LiteralValue::Null => "null"@,
            LiteralValue::Uint(n) => decimal(n as int),
            LiteralValue::Int(n) => decimal(n as int),
            LiteralValue::Float(number) => if number.bits % 0x8000_0000_0000_0000
                > 0x7ff0_0000_0000_0000 {
                "NaN"@
            } else {
                double_text(number.bits)
            },
            LiteralValue::Bytes(_) => "<bytes>"@,
            LiteralValue::Text(text) => "'"@ + text@ + "'"@,
        }),
{
}

// Primitives.

/// A primitive type goes by the kind of a value alone, except that a text is a `bstr`
/// exactly where it is the base64url text of some byte string. What it does not accept
/// is answered with one failure, at the value, that names both.
pub proof fn primitive_goes_by_kind(
    m: IrModule,
    p: Primitive,
    v: ValueView,
    path: Seq<SegView>,
    depth: nat,
)
    ensures
        ({
            let errors = ref_errors(m, TypeRef::Primitive(p), v, path, depth);
            let accepted = match p {
                Primitive::Any => true,
                Primitive::Bool => v is Bool,
                Primitive::Null => v is Null,
                Primitive::Undefined => v is Null,
                Primitive::Uint => v is Uint,
                Primitive::Int => v is Uint || v is Int,
                Primitive::Float16 => v is Float || v is Uint || v is Int,
                Primitive::Float32 => v is Float || v is Uint || v is Int,
                Primitive::Float64 => v is Float || v is Uint || v is Int,
                Primitive::Float => v is Float || v is Uint || v is Int,
                Primitive::Tstr => v is Text,
                Primitive::Bstr => v is Bytes || exists|bytes: Seq<u8>|
                    v == ValueView::Text(#[trigger] encoding(bytes)),
            };
            &&& accepted ==> errors.len() == 0
            &&& !accepted ==> errors == report(
                path,
                "expected "@ + primitive_name(p) + ", found "@ + kind_name(v),
            )
            &&& ref_conforms(m, TypeRef::Primitive(p), v, depth) == accepted
        }),
{
    if v is Text {
        lemma_encoded(v);
    }
    type_report_is_empty_iff_conforming(m, TypeRef::Primitive(p), v, path, depth);
}

/// What bytes a text stands for, in terms of the encoding alone.
proof fn lemma_encoded(v: ValueView)
    ensures
        v is Text ==> (encoded_bytes(v) is Some <==> exists|bytes: Seq<u8>|
            v == ValueView::Text(#[trigger] encoding(bytes))),
        v is Text ==> forall|bytes: Seq<u8>|
            encoded_bytes(v) == Some(bytes) <==> v == ValueView::Text(#[trigger] encoding(bytes)),
        v !is Text ==> encoded_bytes(v) is None,
{
    if let ValueView::Text(text) = v {
        assert forall|bytes: Seq<u8>|
            encoded_bytes(v) == Some(bytes) <==> v == ValueView::Text(
                #[trigger] encoding(bytes),
            ) by {
            if encoding(bytes) == text {
                encoding_reads_back(bytes);
            }
        }
        if let Some(bytes) = encoded_bytes(v) {
            assert(encoding(bytes) == text);
        }
    }
}

// Literals.

/// `.eq` holds of the one value that a literal denotes and of no other: an integer
/// however it is held, a number by its value and never a NaN, a byte string also as its
/// base64url text. `.ne` holds exactly where `.eq` does not. Each failure is one, at
/// the value.
pub proof fn literal_denotes_one_value(
    m: IrModule,
    literal: LiteralValue,
    base: Option<Primitive>,
    v: ValueView,
    path: Seq<SegView>,
    depth: nat,
)
    ensures
        ({
            let denoted = match literal {
                LiteralValue::Bool(b) => v == ValueView::Bool(b),
                LiteralValue::Null => v == ValueView::Null,
                LiteralValue::Uint(n) => v == ValueView::Uint(n) || (v matches ValueView::Int(k)
                    && k as int == n as int),
                LiteralValue::Int(n) => v == ValueView::Int(n) || (v matches ValueView::Uint(k)
                    && k as int == n as int),
                LiteralValue::Float(a) => v matches ValueView::Float(b) && !a.is_nan()
                    && !b.is_nan() && a.scaled() == b.scaled(),
                LiteralValue::Text(text) => v == ValueView::Text(text@),
                LiteralValue::Bytes(bytes) => v == ValueView::Bytes(bytes@) || v == ValueView::Text(
                    encoding(bytes@),
                ),
            };
            &&& constraint_holds(m, Constraint::Eq(literal), base, v, depth) == denoted
            &&& constraint_holds(m, Constraint::Ne(literal), base, v, depth) == !denoted
            &&& constraint_errors(m, Constraint::Eq(literal), base, v, path, depth) == (
            if denoted {
                seq![]
            } else {
                report(
                    path,
                    "expected value equal to "@ + described_literal(literal) + ", found "@
                        + kind_name(v),
                )
            })
            &&& constraint_errors(m, Constraint::Ne(literal), base, v, path, depth) == (
            if denoted {
                report(path, "value must not equal "@ + described_literal(literal))
            } else {
                seq![]
            })
        }),
{
    lemma_encoded(v);
    if let LiteralValue::Bytes(bytes) = literal {
        assert(encoded_bytes(v) == Some(bytes@) <==> v == ValueView::Text(encoding(bytes@)));
    }
}

/// Two literals that hold of one value denote the same boolean, integer, number, text
/// or byte string.
pub proof fn literals_exclude_each_other(
    m: IrModule,
    a: LiteralValue,
    b: LiteralValue,
    base: Option<Primitive>,
    v: ValueView,
    depth: nat,
)
    requires
        constraint_holds(m, Constraint::Eq(a), base, v, depth),
        constraint_holds(m, Constraint::Eq(b), base, v, depth),
    ensures
        match (a, b) {
            (LiteralValue::Bool(x), LiteralValue::Bool(y)) => x == y,
            (LiteralValue::Null, LiteralValue::Null) => true,
            (LiteralValue::Uint(x), LiteralValue::Uint(y)) => x == y,
            (LiteralValue::Uint(x), LiteralValue::Int(y)) => x as int == y as int,
            (LiteralValue::Int(x), LiteralValue::Uint(y)) => x as int == y as int,
            (LiteralValue::Int(x), LiteralValue::Int(y)) => x == y,
            (LiteralValue::Float(x), LiteralValue::Float(y)) => x.scaled() == y.scaled(),
            (LiteralValue::Text(x), LiteralValue::Text(y)) => x@ == y@,
            (LiteralValue::Text(x), LiteralValue::Bytes(y)) => x@ == encoding(y@),
            (LiteralValue::Bytes(x), LiteralValue::Text(y)) => encoding(x@) == y@,
            (LiteralValue::Bytes(x), LiteralValue::Bytes(y)) => x@ == y@,
            _ => false,
        },
{
    literal_denotes_one_value(m, a, base, v, seq![], depth);
    literal_denotes_one_value(m, b, base, v, seq![], depth);
    if let (LiteralValue::Bytes(x), LiteralValue::Bytes(y)) = (a, b) {
        encoding_reads_back(x@);
        encoding_reads_back(y@);
    }
}

/// A field is looked up under its own text or its own integer, whichever way the
/// integer is held, and under nothing else.
pub proof fn key_is_one_text_or_integer(key: FieldKey, v: ValueView)
    ensures
        is_key(key, v) == (match key {
            FieldKey::Text(name) => v == ValueView::Text(name@),
            FieldKey::Int(n) => v == ValueView::Int(n) || (v matches ValueView::Uint(k)
                && k as int == n as int),
            FieldKey::Uint(n) => v == ValueView::Uint(n) || (v matches ValueView::Int(k)
                && k as int == n as int),
        }),
{
}

// Ranges.

/// A range of signed bounds holds of a number exactly where the number is at least the
/// lower bound, if there is one, and below the upper bound, if there is one, or at it
/// where that is inclusive. A float counts without its fraction; what is no number
/// fails. A failure is one, at the value, that names the number and the bound.
pub proof fn signed_range_lies_between_its_bounds(
    m: IrModule,
    min: Option<i64>,
    max: Option<i64>,
    inclusive: bool,
    base: Option<Primitive>,
    v: ValueView,
    path: Seq<SegView>,
    depth: nat,
)
    ensures
        ({
            let range = Constraint::ValueRangeInt { min, max, inclusive };
            let number = match v {
                ValueView::Uint(k) => Some(k as int),
                ValueView::Int(k) => Some(k as int),
                ValueView::Float(x) => Some(x.truncated()),
                _ => None,
            };
            let low = min matches Some(b) ==> b <= number->0;
            let high = max matches Some(b) ==> number->0 < b || (inclusive && number->0 == b);
            &&& constraint_holds(m, range, base, v, depth) <==> number is Some && low && high
            &&& constraint_errors(m, range, base, v, path, depth) == (if number is None {
                report(path, "expected a number, found "@ + kind_name(v))
            } else if !low {
                report(
                    path,
                    "value "@ + decimal(number->0) + " is below the minimum "@ + decimal(
                        min->0 as int,
                    ),
                )
            } else if !high {
                report(
                    path,
                    "value "@ + decimal(number->0) + " is above the maximum "@ + decimal(
                        max->0 as int,
                    ),
                )
            } else {
                seq![]
            })
        }),
{
}

/// A range of unsigned bounds holds of a number exactly where one of signed bounds
/// would.
pub proof fn unsigned_range_lies_between_its_bounds(
    m: IrModule,
    min: Option<u64>,
    max: Option<u64>,
    inclusive: bool,
    base: Option<Primitive>,
    v: ValueView,
    path: Seq<SegView>,
    depth: nat,
)
    ensures
        ({
            let range = Constraint::ValueRangeUint { min, max, inclusive };
            let number = match v {
                ValueView::Uint(k) => Some(k as int),
                ValueView::Int(k) => Some(k as int),
                ValueView::Float(x) => Some(x.truncated()),
                _ => None,
            };
            let low = min matches Some(b) ==> b <= number->0;
            let high = max matches Some(b) ==> number->0 < b || (inclusive && number->0 == b);
            &&& constraint_holds(m, range, base, v, depth) <==> number is Some && low && high
            &&& constraint_errors(m, range, base, v, path, depth) == (if number is None {
                report(path, "expected a number, found "@ + kind_name(v))
            } else if !low {
                report(
                    path,
                    "value "@ + decimal(number->0) + " is below the minimum "@ + decimal(
                        min->0 as int,
                    ),
                )
            } else if !high {
                report(
                    path,
                    "value "@ + decimal(number->0) + " is above the maximum "@ + decimal(
                        max->0 as int,
                    ),
                )
            } else {
                seq![]
            })
        }),
{
}

/// A range of doubles holds of a number exactly where the number is not below the lower
/// bound and not above the upper bound, nor at it unless it is inclusive. An integer
/// counts as the nearest double, and a NaN is neither below nor above nor at anything.
pub proof fn double_range_lies_between_its_bounds(
    m: IrModule,
    min: Option<Double>,
    max: Option<Double>,
    inclusive: bool,
    base: Option<Primitive>,
    v: ValueView,
    path: Seq<SegView>,
    depth: nat,
)
    ensures
        ({
            let range = Constraint::ValueRangeF64 { min, max, inclusive };
            let number = match v {
                ValueView::Uint(k) => Some(Double::nearest(k as int)),
                ValueView::Int(k) => Some(Double::nearest(k as int)),
                ValueView::Float(x) => Some(x),
                _ => None,
            };
            let x = number->0;
            let below = min matches Some(b) && !x.is_nan() && !b.is_nan() && x.scaled()
                < b.scaled();
            let above = max matches Some(b) && !x.is_nan() && !b.is_nan() && (b.scaled()
                < x.scaled() || (!inclusive && x.scaled() == b.scaled()));
            &&& constraint_holds(m, range, base, v, depth) <==> number is Some && !below && !above
            &&& constraint_errors(m, range, base, v, path, depth) == (if number is None {
                report(path, "expected a number, found "@ + kind_name(v))
            } else if below {
                report(
                    path,
                    "value "@ + x.written() + " is below the minimum "@ + min->0.written(),
                )
            } else if above {
                report(
                    path,
                    "value "@ + x.written() + " is above the maximum "@ + max->0.written(),
                )
            } else {
                seq![]
            })
        }),
{
}

// Sizes.

/// Eight bits to the byte.
proof fn lemma_bytes_and_bits(bytes: nat)
    ensures
        pow2(8 * bytes) == pow(256, bytes),
        bytes > 0 ==> 2 * pow2((8 * bytes - 1) as nat) == pow(256, bytes),
        pow(256, bytes) > 0,
{
    lemma2_to64();
    lemma_pow2(8);
    lemma_pow_multiplies(2, 8, bytes);
    lemma_pow2(8 * bytes);
    lemma_pow_positive(256, bytes);
    if bytes > 0 {
        lemma_pow2_unfold(8 * bytes);
    }
}

/// `.size` on a type that comes down to an integer is about its width: an unsigned
/// integer has to be below 256 to the power of the largest number of bytes, a signed
/// one within half of that on either side of 0 (for no byte at all, 0 or -1). The
/// smallest number of bytes asks nothing, and what is no integer fails.
pub proof fn integer_size_is_a_width(
    m: IrModule,
    min: Option<usize>,
    max: Option<usize>,
    unsigned: bool,
    v: ValueView,
    path: Seq<SegView>,
    depth: nat,
)
    ensures
        ({
            let base = Some(
                if unsigned {
                    Primitive::Uint
                } else {
                    Primitive::Int
                },
            );
            let size = Constraint::SizeRange { min, max };
            let number = match v {
                ValueView::Uint(k) => Some(k as int),
                ValueView::Int(k) => Some(k as int),
                _ => None,
            };
            let n = number->0;
            let wide_enough = max matches Some(bytes) ==> if unsigned {
                0 <= n < pow(256, bytes as nat)
            } else if bytes == 0 {
                n == 0 || n == -1
            } else {
                -pow(256, bytes as nat) <= 2 * n < pow(256, bytes as nat)
            };
            &&& constraint_holds(m, size, base, v, depth) <==> number is Some && wide_enough
            &&& constraint_errors(m, size, base, v, path, depth) == (if number is None {
                report(path, "expected an integer, found "@ + kind_name(v))
            } else if !wide_enough {
                report(
                    path,
                    "value "@ + decimal(n) + " does not fit in "@ + decimal(max->0 as int)
                        + " byte(s)"@,
                )
            } else {
                seq![]
            })
        }),
{
    if let Some(bytes) = max {
        lemma_bytes_and_bits(bytes as nat);
    }
}

/// `.size` on any other type is about a length: that of a byte string, of an array, and
/// of a text in UTF-8. Both bounds belong to it, and what has no length fails. The one
/// text that counts otherwise is one that encodes bytes, where the type comes down to
/// `bstr`.
pub proof fn other_size_is_a_length(
    m: IrModule,
    min: Option<usize>,
    max: Option<usize>,
    base: Option<Primitive>,
    v: ValueView,
    path: Seq<SegView>,
    depth: nat,
)
    requires
        base != Some(Primitive::Uint),
        base != Some(Primitive::Int),
        base == Some(Primitive::Bstr) ==> forall|bytes: Seq<u8>|
            v != ValueView::Text(#[trigger] encoding(bytes)),
    ensures
        ({
            let size = Constraint::SizeRange { min, max };
            let length = match v {
                ValueView::Bytes(bytes) => Some(bytes.len() as int),
                ValueView::Array(items) => Some(items.len() as int),
                ValueView::Text(text) => Some(encode_utf8(text).len() as int),
                _ => None,
            };
            let low = min matches Some(b) ==> b <= length->0;
            let high = max matches Some(b) ==> length->0 <= b;
            &&& constraint_holds(m, size, base, v, depth) <==> length is Some && low && high
            &&& constraint_errors(m, size, base, v, path, depth) == (if length is None {
                report(path, ".size constraint does not apply to "@ + kind_name(v))
            } else if !low {
                report(
                    path,
                    ".size: expected at least "@ + decimal(min->0 as int) + ", found "@ + decimal(
                        length->0,
                    ),
                )
            } else if !high {
                report(
                    path,
                    ".size: expected at most "@ + decimal(max->0 as int) + ", found "@ + decimal(
                        length->0,
                    ),
                )
            } else {
                seq![]
            })
        }),
{
    lemma_encoded(v);
}

/// Where a type comes down to `bstr`, `.size` gives the text of a byte string and the
/// byte string itself the same report.
pub proof fn size_of_a_text_is_that_of_its_bytes(
    m: IrModule,
    min: Option<usize>,
    max: Option<usize>,
    bytes: Seq<u8>,
    path: Seq<SegView>,
    depth: nat,
)
    ensures
        ({
            let size = Constraint::SizeRange { min, max };
            let base = Some(Primitive::Bstr);
            let text = ValueView::Text(encoding(bytes));
            &&& constraint_errors(m, size, base, text, path, depth) == constraint_errors(
                m,
                size,
                base,
                ValueView::Bytes(bytes),
                path,
                depth,
            )
            &&& constraint_holds(m, size, base, text, depth) == constraint_holds(
                m,
                size,
                base,
                ValueView::Bytes(bytes),
                depth,
            )
        }),
{
    encoding_reads_back(bytes);
}

/// An exact size is the range from that size to itself.
pub proof fn exact_size_is_a_range(
    m: IrModule,
    n: usize,
    base: Option<Primitive>,
    v: ValueView,
    path: Seq<SegView>,
    depth: nat,
)
    ensures
        ({
            let range = Constraint::SizeRange { min: Some(n), max: Some(n) };
            &&& constraint_errors(m, Constraint::SizeExact(n), base, v, path, depth)
                == constraint_errors(m, range, base, v, path, depth)
            &&& constraint_holds(m, Constraint::SizeExact(n), base, v, depth) == constraint_holds(
                m,
                range,
                base,
                v,
                depth,
            )
        }),
{
}

// What a type comes down to.

/// A primitive comes down to itself, a name for an alias to what the alias's type comes
/// down to, a tagged type to what the type under the tag comes down to, and nothing
/// else to anything.
pub proof fn types_come_down_to_primitives(
    m: IrModule,
    p: Primitive,
    name: String,
    i: int,
    tag: CborTag,
    ty: TypeRef,
    variants: Vec<TypeRef>,
    depth: nat,
)
    requires
        depth <= 128,
    ensures
        base_primitive(m, TypeRef::Primitive(p), depth) == Some(p),
        base_primitive(m, TypeRef::Tagged(tag, Box::new(ty)), depth) == base_primitive(
            m,
            ty,
            depth + 1,
        ),
        base_primitive(m, TypeRef::Choice(variants), depth) is None,
        m.defines_at(name@, i) ==> base_primitive(m, TypeRef::Named(name), depth) == (
        match m.types@[i] {
            TypeDef::Alias(a) => base_primitive(m, a.ty, depth + 1),
            _ => None,
        }),
        (forall|k: int|
            0 <= k < m.types@.len() ==> (#[trigger] m.types@[k]).defined_name() != name@)
            ==> base_primitive(m, TypeRef::Named(name), depth) is None,
{
    reveal_with_fuel(base_primitive, 2);
    if m.defines_at(name@, i) {
        the_first_of_a_name_counts(m, name@, i);
    }
    m.lookup_goes_by_name(name@);
}

/// Behind more than 128 aliases and tags a type comes down to nothing.
pub proof fn far_types_come_down_to_nothing(m: IrModule, ty: TypeRef, depth: nat)
    requires
        depth > 128,
    ensures
        base_primitive(m, ty, depth) is None,
{
}

/// Of the rules with a name, the first is the one that the name refers to.
pub proof fn the_first_of_a_name_counts(m: IrModule, name: Seq<char>, i: int)
    requires
        0 <= i < m.types@.len(),
        m.types@[i].defined_name() == name,
        forall|j: int| 0 <= j < i ==> (#[trigger] m.types@[j]).defined_name() != name,
    ensures
        m.defines_at(name, i),
        m.lookup(name) == Some(m.types@[i]),
{
    assert(m.defines_at(name, i));
    let k = choose|k: int| m.defines_at(name, k);
    assert(m.defines_at(name, k));
    assert(!(k < i) && !(i < k));
}

/// A rule is defined under the name that it carries.
pub proof fn rules_carry_their_names(def: TypeDef)
    ensures
        match def {
            TypeDef::Struct(s) => def.defined_name() == s.name@,
            TypeDef::Enum(e) => def.defined_name() == e.name@,
            TypeDef::Array(a) => def.defined_name() == a.name@,
            TypeDef::Table(t) => def.defined_name() == t.name@,
            TypeDef::Alias(a) => def.defined_name() == a.name@,
        },
{
}

/// `.size` on a name for an alias of a primitive is `.size` on the primitive: on a name
/// for `uint` it holds of the unsigned integers below 256 to that power, and of them
/// alone.
pub proof fn size_looks_through_names(
    m: IrModule,
    name: String,
    i: int,
    alias: AliasDef,
    n: usize,
    k: u64,
    depth: nat,
)
    requires
        m.defines_at(name@, i),
        m.types@[i] == TypeDef::Alias(alias),
        alias.ty == TypeRef::Primitive(Primitive::Uint),
    ensures
        constraints_hold(
            m,
            seq![Constraint::SizeExact(n)],
            TypeRef::Named(name),
            ValueView::Uint(k),
            depth,
        ) <==> k < pow(256, n as nat),
{
    types_come_down_to_primitives(
        m,
        Primitive::Uint,
        name,
        i,
        CborTag(0),
        alias.ty,
        arbitrary(),
        0,
    );
    types_come_down_to_primitives(
        m,
        Primitive::Uint,
        name,
        i,
        CborTag(0),
        alias.ty,
        arbitrary(),
        1,
    );
    let base = base_primitive(m, TypeRef::Named(name), 0);
    assert(base == Some(Primitive::Uint));
    let v = ValueView::Uint(k);
    let constraints = seq![Constraint::SizeExact(n)];
    exact_size_is_a_range(m, n, base, v, seq![], depth);
    integer_size_is_a_width(m, Some(n), Some(n), true, v, seq![], depth);
    assert(constraint_holds(m, constraints[0], base, v, depth) <==> k < pow(256, n as nat));
    if k < pow(256, n as nat) {
        assert forall|j: int| 0 <= j < constraints.len() implies constraint_holds(
            m,
            #[trigger] constraints[j],
            base,
            v,
            depth,
        ) by {
            assert(constraints[j] == constraints[0]);
        }
    } else {
        assert(!constraint_holds(m, constraints[0], base, v, depth));
    }
}

// Patterns, defaults and counts.

/// `.regexp` holds of the texts in which the compiled pattern matches, and of nothing
/// else.
pub proof fn pattern_has_to_match(
    m: IrModule,
    pattern: String,
    base: Option<Primitive>,
    v: ValueView,
    path: Seq<SegView>,
    depth: nat,
)
    ensures
        ({
            let constraint = Constraint::Regexp { pattern };
            let errors = constraint_errors(m, constraint, base, v, path, depth);
            &&& constraint_holds(m, constraint, base, v, depth) <==> {
                &&& v matches ValueView::Text(text)
                &&& compiled(pattern@) matches Ok(regex)
                &&& matches_in(regex, text)
            }
            &&& v matches ValueView::Text(text) ==> match compiled(pattern@) {
                Ok(regex) => errors == (if matches_in(regex, text) {
                    seq![]
                } else {
                    report(path, "'"@ + text + "' does not match pattern /"@ + pattern@ + "/"@)
                }),
                Err(failure) => errors == report(
                    path,
                    "schema error: invalid .regexp pattern '"@ + pattern@ + "': "@ + failure,
                ),
            }
            &&& v !is Text ==> errors == report(
                path,
                ".regexp constraint does not apply to "@ + kind_name(v),
            )
        }),
{
}

/// A default asks nothing of a value.
pub proof fn default_asks_nothing(
    m: IrModule,
    literal: LiteralValue,
    base: Option<Primitive>,
    v: ValueView,
    path: Seq<SegView>,
    depth: nat,
)
    ensures
        constraint_holds(m, Constraint::Default(literal), base, v, depth),
        constraint_errors(m, Constraint::Default(literal), base, v, path, depth).len() == 0,
{
}

/// An array may have any number of elements, at least one, or a number between bounds
/// that belong to it, as its occurrence says.
pub proof fn occurrence_bounds_the_count(occurrence: Occurrence, len: nat, name: Seq<char>)
    ensures
        ({
            let (least, most) = match occurrence {
                Occurrence::Required => (0int, None),
                Occurrence::Optional => (0int, None),
                Occurrence::ZeroOrMore => (0int, None),
                Occurrence::OneOrMore => (1int, None),
                Occurrence::Bounded { min, max } => (min as int, max),
            };
            let enough = least <= len;
            let not_too_many = most matches Some(b) ==> len <= b;
            &&& allows_count(occurrence, len) <==> enough && not_too_many
            &&& cardinality_failure(occurrence, len, name) is None <==> enough && not_too_many
            &&& !enough ==> cardinality_failure(occurrence, len, name) == Some(
                if occurrence is OneOrMore {
                    "'"@ + name + "' requires at least 1 element, found 0"@
                } else {
                    "'"@ + name + "' requires at least "@ + decimal(least)
                        + " element(s), found "@ + decimal(len as int)
                },
            )
            &&& enough && !not_too_many ==> cardinality_failure(occurrence, len, name) == Some(
                "'"@ + name + "' allows at most "@ + decimal(most->0 as int)
                    + " element(s), found "@ + decimal(len as int),
            )
        }),
{
}

// Tags and the limit.

/// What stands for a value under an expected tag: the tagged item under that tag, a
/// failure under another, and the value itself where it has none or none is expected.
pub proof fn tags_are_taken_off(tag: CborTag, number: u64, item: ValueView, v: ValueView)
    ensures
        payload(None, v) == Ok::<ValueView, Seq<char>>(v),
        v !is Tag ==> payload(Some(tag), v) == Ok::<ValueView, Seq<char>>(v),
        payload(Some(tag), ValueView::Tag(tag.0, Box::new(item))) == Ok::<ValueView, Seq<char>>(
            item,
        ),
        number != tag.0 ==> payload(Some(tag), ValueView::Tag(number, Box::new(item))) == Err::<
            ValueView,
            Seq<char>,
        >("expected CBOR tag "@ + decimal(tag.0 as int) + ", found tag "@ + decimal(number as int)),
{
}

/// The limit on nesting is 128 rules, and the failure says so.
pub proof fn the_limit_is_named()
    ensures
        MAX_DEPTH == 128,
        too_deep() == "exceeded maximum nesting depth (128)"@,
{
    reveal_strlit("exceeded maximum nesting depth (");
    reveal_strlit(")");
    reveal_strlit("exceeded maximum nesting depth (128)");
    reveal_with_fuel(numeral, 4);
    assert(decimal(128) =~= seq!['1', '2', '8']);
    assert(too_deep() =~= "exceeded maximum nesting depth (128)"@);
}

} // verus!
