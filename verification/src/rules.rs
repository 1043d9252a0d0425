//! What it takes for a value to match a schema, and what is reported where it does
//! not.

use vstd::arithmetic::power2::pow2;
use vstd::prelude::*;
use vstd::utf8::encode_utf8;

use crate::base64url::base64url;
use crate::cbor::cbor_read;
use crate::double::Double;
use crate::error::{ErrorView, SegView};
use crate::ir::{
    ArrayDef, CborTag, Constraint, EnumDef, EnumVariant, FieldDef, FieldKey, IrModule,
    LiteralValue, Occurrence, Primitive, StructDef, TypeDef, TypeRef,
};
use crate::pattern::search_outcome;
use crate::text::decimal;
use crate::value::ValueView;

verus! {

/// Recursive descent limit: a defensive guard against pathologically deep
/// (or malicious) input, since a validator sits at a trust boundary.
pub const MAX_DEPTH: usize = 128;

// Names of kinds and literals, as messages show them.

pub open spec fn kind_name(v: ValueView) -> Seq<char> {
    match v {
        ValueView::Null => "null"@,
        ValueView::Bool(_) => "bool"@,
        ValueView::Uint(_) => "uint"@,
        ValueView::Int(_) => "int"@,
        ValueView::Float(_) => "float"@,
        ValueView::Text(_) => "text"@,
        ValueView::Bytes(_) => "bytes"@,
        ValueView::Array(_) => "array"@,
        ValueView::Mapping(_) => "map"@,
        ValueView::Tag(_, _) => "tagged value"@,
    }
}

pub open spec fn primitive_name(p: Primitive) -> Seq<char> {
    match p {
        Primitive::Bool => "bool"@,
        Primitive::Null => "null"@,
        Primitive::Undefined => "undefined"@,
        Primitive::Uint => "uint"@,
        Primitive::Int => "int"@,
        Primitive::Float16 => "float16"@,
        Primitive::Float32 => "float32"@,
        Primitive::Float64 => "float64"@,
        Primitive::Float => "float"@,
        Primitive::Bstr => "bstr"@,
        Primitive::Tstr => "tstr"@,
        Primitive::Any => "any"@,
    }
}

/// A text key in quotes, any other key by its kind.
pub open spec fn described_key(v: ValueView) -> Seq<char> {
    match v {
        ValueView::Text(text) => "'"@ + text + "'"@,
        _ => kind_name(v),
    }
}

pub open spec fn described_literal(literal: LiteralValue) -> Seq<char> {
    match literal {
        LiteralValue::Bool(b) => if b {
            "true"@
        } else {
            "false"@
        },
        LiteralValue::Null => "null"@,
        LiteralValue::Uint(n) => decimal(n as int),
        LiteralValue::Int(n) => decimal(n as int),
        LiteralValue::Float(number) => number.written(),
        LiteralValue::Bytes(_) => "<bytes>"@,
        LiteralValue::Text(text) => "'"@ + text@ + "'"@,
    }
}

// What a value holds, seen from a constraint.

/// The integer that a value is.
pub open spec fn integer_of(v: ValueView) -> Option<int> {
    match v {
        ValueView::Uint(n) => Some(n as int),
        ValueView::Int(n) => Some(n as int),
        _ => None,
    }
}

/// The integer that an integer range compares: a float loses its fraction.
pub open spec fn whole_of(v: ValueView) -> Option<int> {
    match v {
        ValueView::Float(number) => Some(number.truncated()),
        _ => integer_of(v),
    }
}

/// The double that a floating-point range compares: an integer is rounded.
pub open spec fn double_of(v: ValueView) -> Option<Double> {
    match v {
        ValueView::Float(number) => Some(number),
        _ => match integer_of(v) {
            Some(n) => Some(Double::nearest(n)),
            None => None,
        },
    }
}

/// The bytes that a text value encodes in base64url.
pub open spec fn encoded_bytes(v: ValueView) -> Option<Seq<u8>> {
    match v {
        ValueView::Text(text) => base64url(text),
        _ => None,
    }
}

// Primitives, literals and keys.

/// A value is of a primitive type. `encoded` holds the bytes that a text value
/// encodes.
pub open spec fn is_of(p: Primitive, v: ValueView, encoded: Option<Seq<u8>>) -> bool {
    match p {
        Primitive::Any => true,
        Primitive::Bool => v is Bool,
        Primitive::Null | Primitive::Undefined => v is Null,
        Primitive::Uint => v is Uint,
        Primitive::Int => integer_of(v) is Some,
        Primitive::Float16 | Primitive::Float32 | Primitive::Float64 | Primitive::Float => v
            is Float || integer_of(v) is Some,
        Primitive::Tstr => v is Text,
        Primitive::Bstr => v is Bytes || (v is Text && encoded is Some),
    }
}

/// A value is the one that a literal denotes: numbers of either sign by their
/// integer, a byte string also by the text that encodes it.
pub open spec fn equals_literal(
    literal: LiteralValue,
    v: ValueView,
    encoded: Option<Seq<u8>>,
) -> bool {
    match literal {
        LiteralValue::Bool(b) => v == ValueView::Bool(b),
        LiteralValue::Null => v is Null,
        LiteralValue::Uint(n) => integer_of(v) == Some(n as int),
        LiteralValue::Int(n) => integer_of(v) == Some(n as int),
        LiteralValue::Float(number) => match v {
            ValueView::Float(other) => number.equal(other),
            _ => false,
        },
        LiteralValue::Text(text) => v == ValueView::Text(text@),
        LiteralValue::Bytes(bytes) => match v {
            ValueView::Bytes(other) => other == bytes@,
            ValueView::Text(_) => encoded == Some(bytes@),
            _ => false,
        },
    }
}

/// A map key is the one that a field is looked up under.
pub open spec fn is_key(key: FieldKey, v: ValueView) -> bool {
    match key {
        FieldKey::Text(name) => v == ValueView::Text(name@),
        FieldKey::Int(n) => integer_of(v) == Some(n as int),
        FieldKey::Uint(n) => integer_of(v) == Some(n as int),
    }
}

/// Entry `i` is the first whose key is the field's.
pub open spec fn entry_at(key: FieldKey, entries: Seq<(ValueView, ValueView)>, i: int) -> bool {
    &&& 0 <= i < entries.len()
    &&& is_key(key, entries[i].0)
    &&& forall|j: int| 0 <= j < i ==> !is_key(key, (#[trigger] entries[j]).0)
}

/// The value of the field with this key, if the map has it.
pub open spec fn field_value(key: FieldKey, entries: Seq<(ValueView, ValueView)>) -> Option<
    ValueView,
> {
    if exists|i: int| entry_at(key, entries, i) {
        Some(entries[choose|i: int| entry_at(key, entries, i)].1)
    } else {
        None
    }
}

/// Some field is looked up under this key.
pub open spec fn is_known_key(fields: Seq<FieldDef>, v: ValueView) -> bool {
    exists|i: int| 0 <= i < fields.len() && is_key((#[trigger] fields[i]).key, v)
}

/// What stands for a value under an expected tag: the tagged item where the tag is
/// the expected one, and the value itself where none is expected or where it has
/// none. Another tag is a failure.
pub open spec fn payload(tagged: Option<CborTag>, v: ValueView) -> Result<ValueView, Seq<char>> {
    match (tagged, v) {
        (Some(tag), ValueView::Tag(number, inner)) => if number == tag.0 {
            Ok(*inner)
        } else {
            Err(
                "expected CBOR tag "@ + decimal(tag.0 as int) + ", found tag "@ + decimal(
                    number as int,
                ),
            )
        },
        _ => Ok(v),
    }
}

// Constraints. Each gives the message of its failure, and nothing where it holds.

/// An integer can be written in `bytes` bytes. A signed integer has a sign bit even
/// where there is no byte: 0 and -1 are left.
pub open spec fn fits(n: int, bytes: usize, unsigned: bool) -> bool {
    let bits = 8 * bytes as int;
    if unsigned {
        0 <= n < pow2(bits as nat)
    } else if bits == 0 {
        -1 <= n <= 0
    } else {
        -pow2((bits - 1) as nat) <= n < pow2((bits - 1) as nat)
    }
}

/// What `.size` measures on a value that is not an integer. `encoded` holds the
/// bytes that a text value encodes: they count where the base type is `bstr`.
pub open spec fn measured_size(
    base: Option<Primitive>,
    v: ValueView,
    encoded: Option<Seq<u8>>,
) -> Option<nat> {
    match v {
        ValueView::Bytes(bytes) => Some(bytes.len()),
        ValueView::Text(text) => match (base, encoded) {
            (Some(Primitive::Bstr), Some(bytes)) => Some(bytes.len()),
            _ => Some(encode_utf8(text).len()),
        },
        ValueView::Array(items) => Some(items.len()),
        _ => None,
    }
}

pub open spec fn size_failure(
    base: Option<Primitive>,
    v: ValueView,
    encoded: Option<Seq<u8>>,
    min: Option<usize>,
    max: Option<usize>,
) -> Option<Seq<char>> {
    if base == Some(Primitive::Uint) || base == Some(Primitive::Int) {
        match (integer_of(v), max) {
            (None, _) => Some("expected an integer, found "@ + kind_name(v)),
            (Some(n), Some(bytes)) => if fits(n, bytes, base == Some(Primitive::Uint)) {
                None
            } else {
                Some(
                    "value "@ + decimal(n) + " does not fit in "@ + decimal(bytes as int)
                        + " byte(s)"@,
                )
            },
            (Some(_), None) => None,
        }
    } else {
        match measured_size(base, v, encoded) {
            None => Some(".size constraint does not apply to "@ + kind_name(v)),
            Some(size) => if min matches Some(least) && size < least {
                Some(
                    ".size: expected at least "@ + decimal(min->0 as int) + ", found "@ + decimal(
                        size as int,
                    ),
                )
            } else if max matches Some(most) && size > most {
                Some(
                    ".size: expected at most "@ + decimal(max->0 as int) + ", found "@ + decimal(
                        size as int,
                    ),
                )
            } else {
                None
            },
        }
    }
}

/// The lower bound of a CDDL range (`lo..hi` / `lo...hi`) is always
/// inclusive; only the upper bound's inclusivity varies.
pub open spec fn range_failure(
    v: ValueView,
    min: Option<int>,
    max: Option<int>,
    inclusive: bool,
) -> Option<Seq<char>> {
    match whole_of(v) {
        None => Some("expected a number, found "@ + kind_name(v)),
        Some(n) => if min matches Some(low) && n < low {
            Some("value "@ + decimal(n) + " is below the minimum "@ + decimal(min->0))
        } else if max matches Some(high) && (n > high || (!inclusive && n == high)) {
            Some("value "@ + decimal(n) + " is above the maximum "@ + decimal(max->0))
        } else {
            None
        },
    }
}

pub open spec fn double_range_failure(
    v: ValueView,
    min: Option<Double>,
    max: Option<Double>,
    inclusive: bool,
) -> Option<Seq<char>> {
    match double_of(v) {
        None => Some("expected a number, found "@ + kind_name(v)),
        Some(n) => if min matches Some(low) && n.less(low) {
            Some("value "@ + n.written() + " is below the minimum "@ + min->0.written())
        } else if max matches Some(high) && (high.less(n) || (!inclusive && n.equal(high))) {
            Some("value "@ + n.written() + " is above the maximum "@ + max->0.written())
        } else {
            None
        },
    }
}

/// `outcome` tells whether the pattern matches somewhere in the text, or what is
/// wrong with the pattern.
pub open spec fn match_failure(
    text: Seq<char>,
    pattern: Seq<char>,
    outcome: Result<bool, Seq<char>>,
) -> Option<Seq<char>> {
    match outcome {
        Ok(true) => None,
        Ok(false) => Some("'"@ + text + "' does not match pattern /"@ + pattern + "/"@),
        Err(failure) => Some(
            "schema error: invalid .regexp pattern '"@ + pattern + "': "@ + failure,
        ),
    }
}

pub open spec fn regexp_failure(v: ValueView, pattern: Seq<char>) -> Option<Seq<char>> {
    match v {
        ValueView::Text(text) => match_failure(text, pattern, search_outcome(pattern, text)),
        _ => Some(".regexp constraint does not apply to "@ + kind_name(v)),
    }
}

pub open spec fn equality_failure(
    literal: LiteralValue,
    v: ValueView,
    encoded: Option<Seq<u8>>,
) -> Option<Seq<char>> {
    if equals_literal(literal, v, encoded) {
        None
    } else {
        Some(
            "expected value equal to "@ + described_literal(literal) + ", found "@ + kind_name(v),
        )
    }
}

pub open spec fn inequality_failure(
    literal: LiteralValue,
    v: ValueView,
    encoded: Option<Seq<u8>>,
) -> Option<Seq<char>> {
    if equals_literal(literal, v, encoded) {
        Some("value must not equal "@ + described_literal(literal))
    } else {
        None
    }
}

/// How many elements an array has, against how often they may occur.
pub open spec fn cardinality_failure(
    occurrence: Occurrence,
    len: nat,
    name: Seq<char>,
) -> Option<Seq<char>> {
    match occurrence {
        Occurrence::Required | Occurrence::Optional | Occurrence::ZeroOrMore => None,
        Occurrence::OneOrMore => if len < 1 {
            Some("'"@ + name + "' requires at least 1 element, found 0"@)
        } else {
            None
        },
        Occurrence::Bounded { min, max } => if len < min {
            Some(
                "'"@ + name + "' requires at least "@ + decimal(min as int)
                    + " element(s), found "@ + decimal(len as int),
            )
        } else if max matches Some(most) && len > most {
            Some(
                "'"@ + name + "' allows at most "@ + decimal(max->0 as int)
                    + " element(s), found "@ + decimal(len as int),
            )
        } else {
            None
        },
    }
}

/// The bytes in which `.cbor` and `.cborseq` look for items.
pub open spec fn carried_bytes(v: ValueView, encoded: Option<Seq<u8>>) -> Result<
    Seq<u8>,
    Seq<char>,
> {
    match v {
        ValueView::Bytes(bytes) => Ok(bytes),
        ValueView::Text(_) => match encoded {
            Some(bytes) => Ok(bytes),
            None => Err("expected base64url-encoded bytes for embedded CBOR"@),
        },
        _ => Err(".cbor/.cborseq constraint does not apply to "@ + kind_name(v)),
    }
}

/// The value of the one item that `.cbor` reads, every NaN in it as the quiet one.
pub open spec fn embedded_item(bytes: Seq<u8>) -> Result<ValueView, Seq<char>> {
    match cbor_read(bytes) {
        Ok((item, _)) => Ok(item),
        Err(failure) => Err(failure),
    }
}

/// The values of the items that `.cborseq` reads, up to the end of the bytes or to
/// the first failure, every NaN in them as the quiet one.
pub open spec fn embedded_items(bytes: Seq<u8>) -> (Seq<ValueView>, Option<Seq<char>>)
    decreases bytes.len(),
{
    if bytes.len() == 0 {
        (seq![], None)
    } else {
        match cbor_read(bytes) {
            Ok((item, rest)) => if rest < bytes.len() {
                let (items, failure) = embedded_items(bytes.skip(bytes.len() - rest));
                (seq![item] + items, failure)
            } else {
                (seq![item], None)
            },
            Err(failure) => (seq![], Some(failure)),
        }
    }
}

/// The message on the item at which reading a sequence failed, if it did.
pub open spec fn sequence_failure(read: (Seq<ValueView>, Option<Seq<char>>)) -> Option<Seq<char>> {
    match read.1 {
        Some(failure) => Some(
            "embedded CBOR sequence item "@ + decimal(read.0.len() as int)
                + " did not decode: "@ + failure,
        ),
        None => None,
    }
}

// The walk: the failures of a value against a part of the schema, in the order in
// which they are reported.

pub open spec fn report(path: Seq<SegView>, message: Seq<char>) -> Seq<ErrorView> {
    seq![ErrorView { path, message }]
}

pub open spec fn report_any(path: Seq<SegView>, failure: Option<Seq<char>>) -> Seq<ErrorView> {
    match failure {
        Some(message) => report(path, message),
        None => seq![],
    }
}

/// The primitive that a type comes down to, when that is unambiguous: through
/// aliases and tags.
pub open spec fn base_primitive(m: IrModule, ty: TypeRef, depth: nat) -> Option<Primitive>
    decreases MAX_DEPTH + 1 - depth,
{
    if depth > MAX_DEPTH {
        None
    } else {
        match ty {
            TypeRef::Primitive(p) => Some(p),
            TypeRef::Named(name) => match m.lookup(name@) {
                Some(TypeDef::Alias(alias)) => base_primitive(m, alias.ty, depth + 1),
                _ => None,
            },
            TypeRef::Tagged(_, inner) => base_primitive(m, *inner, depth + 1),
            TypeRef::Choice(_) => None,
        }
    }
}

pub open spec fn too_deep() -> Seq<char> {
    "exceeded maximum nesting depth ("@ + decimal(MAX_DEPTH as int) + ")"@
}

/// A value against a rule of the schema. `depth` counts the rules above it.
pub open spec fn def_errors(
    m: IrModule,
    def: TypeDef,
    v: ValueView,
    path: Seq<SegView>,
    depth: nat,
) -> Seq<ErrorView>
    decreases MAX_DEPTH - depth, 0int, m, 0int,
{
    if depth >= MAX_DEPTH {
        report(path, too_deep())
    } else {
        match def {
            TypeDef::Struct(s) => match payload(s.tagged, v) {
                Ok(inner) => struct_errors(m, s, inner, path, depth + 1),
                Err(message) => report(path, message),
            },
            TypeDef::Enum(e) => match payload(e.tagged, v) {
                Ok(inner) => enum_errors(m, e, inner, path, depth + 1),
                Err(message) => report(path, message),
            },
            TypeDef::Array(a) => match payload(a.tagged, v) {
                Ok(inner) => array_errors(m, a, inner, path, depth + 1),
                Err(message) => report(path, message),
            },
            TypeDef::Table(t) => report(
                path,
                "'"@ + t.name@
                    + "' uses a CDDL table ({* K => V}), which this validator does not yet support"@,
            ),
            TypeDef::Alias(a) => match payload(a.tagged, v) {
                Ok(inner) => ref_errors(m, a.ty, inner, path, depth + 1) + constraints_errors(
                    m,
                    a.constraints@,
                    a.ty,
                    inner,
                    path,
                    depth + 1,
                    a.constraints@.len(),
                ),
                Err(message) => report(path, message),
            },
        }
    }
}

pub open spec fn struct_errors(
    m: IrModule,
    s: StructDef,
    v: ValueView,
    path: Seq<SegView>,
    depth: nat,
) -> Seq<ErrorView>
    decreases MAX_DEPTH - depth, 8int, m, 0int,
{
    match v {
        ValueView::Mapping(entries) => fields_errors(
            m,
            s.fields@,
            entries,
            path,
            depth,
            s.fields@.len(),
        ) + unknown_errors(s.fields@, entries, path, entries.len()),
        _ => report(
            path,
            "expected a map for struct '"@ + s.name@ + "', found "@ + kind_name(v),
        ),
    }
}

/// The failures of the first `n` fields.
pub open spec fn fields_errors(
    m: IrModule,
    fields: Seq<FieldDef>,
    entries: Seq<(ValueView, ValueView)>,
    path: Seq<SegView>,
    depth: nat,
    n: nat,
) -> Seq<ErrorView>
    decreases MAX_DEPTH - depth, 7int, m, n,
{
    if n == 0 {
        seq![]
    } else {
        fields_errors(m, fields, entries, path, depth, (n - 1) as nat) + field_errors(
            m,
            fields[n - 1],
            entries,
            path,
            depth,
        )
    }
}

pub open spec fn field_errors(
    m: IrModule,
    field: FieldDef,
    entries: Seq<(ValueView, ValueView)>,
    path: Seq<SegView>,
    depth: nat,
) -> Seq<ErrorView>
    decreases MAX_DEPTH - depth, 6int, m, 0int,
{
    match field_value(field.key, entries) {
        Some(v) => ref_errors(
            m,
            field.ty,
            v,
            path.push(SegView::Field(field.name@)),
            depth,
        ) + constraints_errors(
            m,
            field.constraints@,
            field.ty,
            v,
            path.push(SegView::Field(field.name@)),
            depth,
            field.constraints@.len(),
        ),
        None => if field.required {
            report(path, "missing required field '"@ + field.name@ + "'"@)
        } else {
            seq![]
        },
    }
}

/// The keys among the first `n` entries that no field is looked up under.
pub open spec fn unknown_errors(
    fields: Seq<FieldDef>,
    entries: Seq<(ValueView, ValueView)>,
    path: Seq<SegView>,
    n: nat,
) -> Seq<ErrorView>
    decreases n,
{
    if n == 0 {
        seq![]
    } else {
        let before = unknown_errors(fields, entries, path, (n - 1) as nat);
        let key = entries[n - 1].0;
        if is_known_key(fields, key) {
            before
        } else {
            before + report(path, "unknown field "@ + described_key(key))
        }
    }
}

pub open spec fn enum_errors(
    m: IrModule,
    e: EnumDef,
    v: ValueView,
    path: Seq<SegView>,
    depth: nat,
) -> Seq<ErrorView>
    decreases MAX_DEPTH - depth, 8int, m, 0int,
{
    match failed_variants(m, e.variants@, v, path, depth, e.variants@.len()) {
        Some(attempts) => report(
            path,
            "value matched no variant of '"@ + e.name@ + "'"@ + attempts,
        ),
        None => seq![],
    }
}

/// How the first `n` variants failed, or nothing where one of them matches.
pub open spec fn failed_variants(
    m: IrModule,
    variants: Seq<EnumVariant>,
    v: ValueView,
    path: Seq<SegView>,
    depth: nat,
    n: nat,
) -> Option<Seq<char>>
    decreases MAX_DEPTH - depth, 7int, m, n,
{
    if n == 0 {
        Some(seq![])
    } else {
        let errors = variant_errors(m, variants[n - 1], v, path, depth);
        match failed_variants(m, variants, v, path, depth, (n - 1) as nat) {
            Some(attempts) => if errors.len() == 0 {
                None
            } else {
                Some(
                    attempts + (" ["@ + variants[n - 1].name@ + ": "@ + errors[0].message + "]"@),
                )
            },
            None => None,
        }
    }
}

pub open spec fn variant_errors(
    m: IrModule,
    variant: EnumVariant,
    v: ValueView,
    path: Seq<SegView>,
    depth: nat,
) -> Seq<ErrorView>
    decreases MAX_DEPTH - depth, 6int, m, 0int,
{
    ref_errors(m, variant.ty, v, path, depth) + constraints_errors(
        m,
        variant.constraints@,
        variant.ty,
        v,
        path,
        depth,
        variant.constraints@.len(),
    )
}

pub open spec fn array_errors(
    m: IrModule,
    a: ArrayDef,
    v: ValueView,
    path: Seq<SegView>,
    depth: nat,
) -> Seq<ErrorView>
    decreases MAX_DEPTH - depth, 8int, m, 0int,
{
    match v {
        ValueView::Array(items) => report_any(
            path,
            cardinality_failure(a.occurrence, items.len(), a.name@),
        ) + items_errors(m, a.element, items, path, depth, items.len()),
        _ => report(path, "expected an array for '"@ + a.name@ + "', found "@ + kind_name(v)),
    }
}

/// The failures of the first `n` items, each against the same type.
pub open spec fn items_errors(
    m: IrModule,
    ty: TypeRef,
    items: Seq<ValueView>,
    path: Seq<SegView>,
    depth: nat,
    n: nat,
) -> Seq<ErrorView>
    decreases MAX_DEPTH - depth, 2int, m, n,
{
    if n == 0 {
        seq![]
    } else {
        items_errors(m, ty, items, path, depth, (n - 1) as nat) + ref_errors(
            m,
            ty,
            items[n - 1],
            path.push(SegView::Index((n - 1) as nat)),
            depth,
        )
    }
}

/// A value against a type.
pub open spec fn ref_errors(
    m: IrModule,
    ty: TypeRef,
    v: ValueView,
    path: Seq<SegView>,
    depth: nat,
) -> Seq<ErrorView>
    decreases MAX_DEPTH - depth, 1int, ty, 0int,
{
    match ty {
        TypeRef::Primitive(p) => if is_of(p, v, encoded_bytes(v)) {
            seq![]
        } else {
            report(path, "expected "@ + primitive_name(p) + ", found "@ + kind_name(v))
        },
        TypeRef::Named(name) => match m.lookup(name@) {
            Some(def) => def_errors(m, def, v, path, depth),
            None => report(
                path,
                "internal error: type '"@ + name@ + "' is referenced but not defined"@,
            ),
        },
        TypeRef::Choice(variants) => match failed_alternatives(
            m,
            variants,
            v,
            path,
            depth,
            variants@.len(),
        ) {
            Some(detail) => report(path, "value did not match any alternative: "@ + detail),
            None => seq![],
        },
        TypeRef::Tagged(tag, inner) => match payload(Some(tag), v) {
            Ok(item) => ref_errors(m, *inner, item, path, depth),
            Err(message) => report(path, message),
        },
    }
}

/// How the first `n` alternatives failed, or nothing where one of them matches.
pub open spec fn failed_alternatives(
    m: IrModule,
    variants: Vec<TypeRef>,
    v: ValueView,
    path: Seq<SegView>,
    depth: nat,
    n: nat,
) -> Option<Seq<char>>
    decreases MAX_DEPTH - depth, 1int, variants, n,
{
    if n == 0 || n > variants@.len() {
        Some(seq![])
    } else {
        let errors = ref_errors(m, variants@[n - 1], v, path, depth);
        match failed_alternatives(m, variants, v, path, depth, (n - 1) as nat) {
            Some(detail) => if errors.len() == 0 {
                None
            } else if n == 1 {
                Some(errors[0].message)
            } else {
                Some(detail + " | "@ + errors[0].message)
            },
            None => None,
        }
    }
}

/// The failures of the first `n` constraints on a value of a type.
pub open spec fn constraints_errors(
    m: IrModule,
    constraints: Seq<Constraint>,
    ty: TypeRef,
    v: ValueView,
    path: Seq<SegView>,
    depth: nat,
    n: nat,
) -> Seq<ErrorView>
    decreases MAX_DEPTH - depth, 5int, m, n,
{
    if n == 0 {
        seq![]
    } else {
        constraints_errors(m, constraints, ty, v, path, depth, (n - 1) as nat) + constraint_errors(
            m,
            constraints[n - 1],
            base_primitive(m, ty, 0),
            v,
            path,
            depth,
        )
    }
}

/// A value against one constraint. `base` is the primitive that its type comes
/// down to.
pub open spec fn constraint_errors(
    m: IrModule,
    constraint: Constraint,
    base: Option<Primitive>,
    v: ValueView,
    path: Seq<SegView>,
    depth: nat,
) -> Seq<ErrorView>
    decreases MAX_DEPTH - depth, 4int, m, 0int,
{
    match constraint {
        Constraint::SizeExact(n) => report_any(
            path,
            size_failure(base, v, encoded_bytes(v), Some(n), Some(n)),
        ),
        Constraint::SizeRange { min, max } => report_any(
            path,
            size_failure(base, v, encoded_bytes(v), min, max),
        ),
        Constraint::ValueRangeInt { min, max, inclusive } => report_any(
            path,
            range_failure(v, int_bound(min), int_bound(max), inclusive),
        ),
        Constraint::ValueRangeUint { min, max, inclusive } => report_any(
            path,
            range_failure(v, uint_bound(min), uint_bound(max), inclusive),
        ),
        Constraint::ValueRangeF64 { min, max, inclusive } => report_any(
            path,
            double_range_failure(v, min, max, inclusive),
        ),
        Constraint::Eq(literal) => report_any(
            path,
            equality_failure(literal, v, encoded_bytes(v)),
        ),
        Constraint::Ne(literal) => report_any(
            path,
            inequality_failure(literal, v, encoded_bytes(v)),
        ),
        Constraint::Regexp { pattern } => report_any(path, regexp_failure(v, pattern@)),
        Constraint::CborEmbedded(inner) => match carried_bytes(v, encoded_bytes(v)) {
            Ok(bytes) => embedded_errors(m, *inner, embedded_item(bytes), path, depth),
            Err(message) => report(path, message),
        },
        Constraint::CborSeq(inner) => match carried_bytes(v, encoded_bytes(v)) {
            Ok(bytes) => sequence_errors(m, *inner, embedded_items(bytes), path, depth),
            Err(message) => report(path, message),
        },
        Constraint::Default(_) => seq![],
    }
}

pub open spec fn int_bound(bound: Option<i64>) -> Option<int> {
    match bound {
        Some(n) => Some(n as int),
        None => None,
    }
}

pub open spec fn uint_bound(bound: Option<u64>) -> Option<int> {
    match bound {
        Some(n) => Some(n as int),
        None => None,
    }
}

/// What is read from embedded CBOR, against its type.
pub open spec fn embedded_errors(
    m: IrModule,
    ty: TypeRef,
    read: Result<ValueView, Seq<char>>,
    path: Seq<SegView>,
    depth: nat,
) -> Seq<ErrorView>
    decreases MAX_DEPTH - depth, 3int, m, 0int,
{
    match read {
        Ok(item) => ref_errors(m, ty, item, path, depth),
        Err(failure) => report(path, "embedded CBOR did not decode: "@ + failure),
    }
}

/// What is read from an embedded CBOR sequence, each item against the same type.
pub open spec fn sequence_errors(
    m: IrModule,
    ty: TypeRef,
    read: (Seq<ValueView>, Option<Seq<char>>),
    path: Seq<SegView>,
    depth: nat,
) -> Seq<ErrorView>
    decreases MAX_DEPTH - depth, 3int, m, 0int,
{
    items_errors(m, ty, read.0, path, depth, read.0.len()) + report_any(
        path,
        sequence_failure(read),
    )
}

/// The failures of a document against the rule of that name.
pub open spec fn document_errors(m: IrModule, name: Seq<char>, v: ValueView) -> Seq<ErrorView> {
    if name.len() == 0 {
        report(
            seq![],
            "no root type: the schema defines no rules, or none was given via --type"@,
        )
    } else {
        match m.lookup(name) {
            Some(def) => def_errors(m, def, v, seq![], 0),
            None => report(
                seq![],
                "unknown type '"@ + name + "' (not defined in this schema)"@,
            ),
        }
    }
}

} // verus!
