//! When a value conforms to a schema, stated without the report of what is wrong
//! with it, and the proof that a report is empty exactly then.

use vstd::prelude::*;

use crate::double::Double;
use crate::error::SegView;
use crate::ir::{
    ArrayDef, Constraint, EnumDef, EnumVariant, FieldDef, IrModule, Occurrence, Primitive,
    StructDef, TypeDef, TypeRef,
};
use crate::pattern::search_outcome;
use crate::rules::{
    array_errors, base_primitive, carried_bytes, constraint_errors, constraints_errors, def_errors,
    document_errors, double_of, embedded_item, embedded_items, encoded_bytes, enum_errors,
    equals_literal, failed_alternatives, failed_variants, field_errors, field_value, fields_errors,
    fits, int_bound, integer_of, is_known_key, is_of, items_errors, measured_size, payload,
    ref_errors, struct_errors, uint_bound, unknown_errors, variant_errors, whole_of, MAX_DEPTH,
};
use crate::value::ValueView;

verus! {

/// `.size`: the byte width of an integer, the length of anything else.
pub open spec fn has_size(
    base: Option<Primitive>,
    v: ValueView,
    encoded: Option<Seq<u8>>,
    min: Option<usize>,
    max: Option<usize>,
) -> bool {
    if base == Some(Primitive::Uint) || base == Some(Primitive::Int) {
        &&& integer_of(v) matches Some(n)
        &&& max matches Some(bytes) ==> fits(n, bytes, base == Some(Primitive::Uint))
    } else {
        &&& measured_size(base, v, encoded) matches Some(size)
        &&& min matches Some(least) ==> least <= size
        &&& max matches Some(most) ==> size <= most
    }
}

/// A range of integers. Its lower bound belongs to it, its upper bound where it is
/// inclusive.
pub open spec fn in_range(
    v: ValueView,
    min: Option<int>,
    max: Option<int>,
    inclusive: bool,
) -> bool {
    &&& whole_of(v) matches Some(n)
    &&& min matches Some(low) ==> low <= n
    &&& max matches Some(high) ==> n < high || (inclusive && n == high)
}

/// A range of doubles: nothing below its lower bound and nothing above its upper
/// bound, which belongs to it where it is inclusive.
pub open spec fn in_double_range(
    v: ValueView,
    min: Option<Double>,
    max: Option<Double>,
    inclusive: bool,
) -> bool {
    &&& double_of(v) matches Some(n)
    &&& min matches Some(low) ==> !n.less(low)
    &&& max matches Some(high) ==> !high.less(n) && (inclusive || !n.equal(high))
}

/// `.regexp`: a text in which the pattern matches somewhere.
pub open spec fn matches_pattern(v: ValueView, pattern: Seq<char>) -> bool {
    &&& v matches ValueView::Text(text)
    &&& search_outcome(pattern, text) == Ok::<bool, Seq<char>>(true)
}

/// The number of elements is one that the occurrence allows.
pub open spec fn allows_count(occurrence: Occurrence, len: nat) -> bool {
    match occurrence {
        Occurrence::Required | Occurrence::Optional | Occurrence::ZeroOrMore => true,
        Occurrence::OneOrMore => len >= 1,
        Occurrence::Bounded { min, max } => min <= len && (max matches Some(most) ==> len <= most),
    }
}

/// A value conforms to a rule of the schema, below `depth` other rules.
pub open spec fn def_conforms(m: IrModule, def: TypeDef, v: ValueView, depth: nat) -> bool
    decreases MAX_DEPTH - depth, 0int, m,
{
    &&& depth < MAX_DEPTH
    &&& match def {
        TypeDef::Struct(s) => {
            &&& payload(s.tagged, v) matches Ok(inner)
            &&& struct_conforms(m, s, inner, depth + 1)
        },
        TypeDef::Enum(e) => {
            &&& payload(e.tagged, v) matches Ok(inner)
            &&& enum_conforms(m, e, inner, depth + 1)
        },
        TypeDef::Array(a) => {
            &&& payload(a.tagged, v) matches Ok(inner)
            &&& array_conforms(m, a, inner, depth + 1)
        },
        TypeDef::Table(_) => false,
        TypeDef::Alias(a) => {
            &&& payload(a.tagged, v) matches Ok(inner)
            &&& ref_conforms(m, a.ty, inner, depth + 1)
            &&& constraints_hold(m, a.constraints@, a.ty, inner, depth + 1)
        },
    }
}

/// A map in which every field is in order and in which every key is a field's.
pub open spec fn struct_conforms(m: IrModule, s: StructDef, v: ValueView, depth: nat) -> bool
    decreases MAX_DEPTH - depth, 6int, m,
{
    &&& v matches ValueView::Mapping(entries)
    &&& forall|i: int|
        0 <= i < s.fields@.len() ==> field_conforms(m, #[trigger] s.fields@[i], entries, depth)
    &&& forall|j: int|
        0 <= j < entries.len() ==> is_known_key(s.fields@, (#[trigger] entries[j]).0)
}

/// A field that is there conforms, and one that is required is there.
pub open spec fn field_conforms(
    m: IrModule,
    field: FieldDef,
    entries: Seq<(ValueView, ValueView)>,
    depth: nat,
) -> bool
    decreases MAX_DEPTH - depth, 5int, m,
{
    match field_value(field.key, entries) {
        Some(v) => ref_conforms(m, field.ty, v, depth) && constraints_hold(
            m,
            field.constraints@,
            field.ty,
            v,
            depth,
        ),
        None => !field.required,
    }
}

/// Some variant conforms.
pub open spec fn enum_conforms(m: IrModule, e: EnumDef, v: ValueView, depth: nat) -> bool
    decreases MAX_DEPTH - depth, 6int, m,
{
    exists|i: int|
        0 <= i < e.variants@.len() && variant_conforms(m, #[trigger] e.variants@[i], v, depth)
}

pub open spec fn variant_conforms(
    m: IrModule,
    variant: EnumVariant,
    v: ValueView,
    depth: nat,
) -> bool
    decreases MAX_DEPTH - depth, 5int, m,
{
    ref_conforms(m, variant.ty, v, depth) && constraints_hold(
        m,
        variant.constraints@,
        variant.ty,
        v,
        depth,
    )
}

/// An array with an allowed number of elements, each of which conforms.
pub open spec fn array_conforms(m: IrModule, a: ArrayDef, v: ValueView, depth: nat) -> bool
    decreases MAX_DEPTH - depth, 6int, m,
{
    &&& v matches ValueView::Array(items)
    &&& allows_count(a.occurrence, items.len())
    &&& items_conform(m, a.element, items, depth)
}

/// Every item conforms to the type.
pub open spec fn items_conform(m: IrModule, ty: TypeRef, items: Seq<ValueView>, depth: nat) -> bool
    decreases MAX_DEPTH - depth, 2int, m,
{
    forall|i: int| 0 <= i < items.len() ==> ref_conforms(m, ty, #[trigger] items[i], depth)
}

/// A value conforms to a type.
pub open spec fn ref_conforms(m: IrModule, ty: TypeRef, v: ValueView, depth: nat) -> bool
    decreases MAX_DEPTH - depth, 1int, ty,
{
    match ty {
        TypeRef::Primitive(p) => is_of(p, v, encoded_bytes(v)),
        TypeRef::Named(name) => {
            &&& m.lookup(name@) matches Some(def)
            &&& def_conforms(m, def, v, depth)
        },
        TypeRef::Choice(variants) => exists|i: int|
            0 <= i < variants@.len() && ref_conforms(m, #[trigger] variants@[i], v, depth),
        TypeRef::Tagged(tag, inner) => {
            &&& payload(Some(tag), v) matches Ok(item)
            &&& ref_conforms(m, *inner, item, depth)
        },
    }
}

/// Every constraint holds of a value of a type.
pub open spec fn constraints_hold(
    m: IrModule,
    constraints: Seq<Constraint>,
    ty: TypeRef,
    v: ValueView,
    depth: nat,
) -> bool
    decreases MAX_DEPTH - depth, 4int, m,
{
    forall|i: int|
        0 <= i < constraints.len() ==> constraint_holds(
            m,
            #[trigger] constraints[i],
            base_primitive(m, ty, 0),
            v,
            depth,
        )
}

/// A constraint holds of a value whose type comes down to `base`.
pub open spec fn constraint_holds(
    m: IrModule,
    constraint: Constraint,
    base: Option<Primitive>,
    v: ValueView,
    depth: nat,
) -> bool
    decreases MAX_DEPTH - depth, 3int, m,
{
    match constraint {
        Constraint::SizeExact(n) => has_size(base, v, encoded_bytes(v), Some(n), Some(n)),
        Constraint::SizeRange { min, max } => has_size(base, v, encoded_bytes(v), min, max),
        Constraint::ValueRangeInt { min, max, inclusive } => in_range(
            v,
            int_bound(min),
            int_bound(max),
            inclusive,
        ),
        Constraint::ValueRangeUint { min, max, inclusive } => in_range(
            v,
            uint_bound(min),
            uint_bound(max),
            inclusive,
        ),
        Constraint::ValueRangeF64 { min, max, inclusive } => in_double_range(
            v,
            min,
            max,
            inclusive,
        ),
        Constraint::Eq(literal) => equals_literal(literal, v, encoded_bytes(v)),
        Constraint::Ne(literal) => !equals_literal(literal, v, encoded_bytes(v)),
        Constraint::Regexp { pattern } => matches_pattern(v, pattern@),
        Constraint::CborEmbedded(inner) => {
            &&& carried_bytes(v, encoded_bytes(v)) matches Ok(bytes)
            &&& embedded_item(bytes) matches Ok(item)
            &&& ref_conforms(m, *inner, item, depth)
        },
        Constraint::CborSeq(inner) => {
            &&& carried_bytes(v, encoded_bytes(v)) matches Ok(bytes)
            &&& embedded_items(bytes).1 is None
            &&& items_conform(m, *inner, embedded_items(bytes).0, depth)
        },
        Constraint::Default(_) => true,
    }
}

/// A document conforms to the rule of that name.
pub open spec fn document_conforms(m: IrModule, name: Seq<char>, v: ValueView) -> bool {
    &&& name.len() > 0
    &&& m.lookup(name) matches Some(def)
    &&& def_conforms(m, def, v, 0)
}

/// A rule reports nothing on a value exactly where the value conforms to it.
pub proof fn rule_report_is_empty_iff_conforming(
    m: IrModule,
    def: TypeDef,
    v: ValueView,
    path: Seq<SegView>,
    depth: nat,
)
    ensures
        def_errors(m, def, v, path, depth).len() == 0 <==> def_conforms(m, def, v, depth),
    decreases MAX_DEPTH - depth, 0int, m, 0int,
{
    if depth < MAX_DEPTH {
        match def {
            TypeDef::Struct(s) => {
                if let Ok(inner) = payload(s.tagged, v) {
                    if let ValueView::Mapping(entries) = inner {
                        lemma_fields(m, s.fields@, entries, path, depth + 1, s.fields@.len());
                        lemma_unknown(s.fields@, entries, path, entries.len());
                    }
                    assert(struct_errors(m, s, inner, path, depth + 1).len() == 0
                        <==> struct_conforms(m, s, inner, depth + 1));
                }
            },
            TypeDef::Enum(e) => {
                if let Ok(inner) = payload(e.tagged, v) {
                    lemma_variants(m, e.variants@, inner, path, depth + 1, e.variants@.len());
                    assert(enum_errors(m, e, inner, path, depth + 1).len() == 0 <==> enum_conforms(
                        m,
                        e,
                        inner,
                        depth + 1,
                    ));
                }
            },
            TypeDef::Array(a) => {
                if let Ok(inner) = payload(a.tagged, v) {
                    if let ValueView::Array(items) = inner {
                        lemma_items(m, a.element, items, path, depth + 1, items.len());
                        assert(items_errors(
                            m,
                            a.element,
                            items,
                            path,
                            depth + 1,
                            items.len(),
                        ).len() == 0 <==> items_conform(m, a.element, items, depth + 1));
                    }
                    assert(array_errors(m, a, inner, path, depth + 1).len() == 0
                        <==> array_conforms(m, a, inner, depth + 1));
                }
            },
            TypeDef::Table(_) => {},
            TypeDef::Alias(a) => {
                if let Ok(inner) = payload(a.tagged, v) {
                    type_report_is_empty_iff_conforming(m, a.ty, inner, path, depth + 1);
                    lemma_constraints(
                        m,
                        a.constraints@,
                        a.ty,
                        inner,
                        path,
                        depth + 1,
                        a.constraints@.len(),
                    );
                    assert(constraints_errors(
                        m,
                        a.constraints@,
                        a.ty,
                        inner,
                        path,
                        depth + 1,
                        a.constraints@.len(),
                    ).len() == 0 <==> constraints_hold(
                        m,
                        a.constraints@,
                        a.ty,
                        inner,
                        depth + 1,
                    ));
                }
            },
        }
    }
}

proof fn lemma_fields(
    m: IrModule,
    fields: Seq<FieldDef>,
    entries: Seq<(ValueView, ValueView)>,
    path: Seq<SegView>,
    depth: nat,
    n: nat,
)
    requires
        n <= fields.len(),
    ensures
        fields_errors(m, fields, entries, path, depth, n).len() == 0 <==> (forall|i: int|
            0 <= i < n ==> field_conforms(m, #[trigger] fields[i], entries, depth)),
    decreases MAX_DEPTH - depth, 7int, m, n,
{
    if n > 0 {
        lemma_fields(m, fields, entries, path, depth, (n - 1) as nat);
        let field = fields[n - 1];
        if let Some(v) = field_value(field.key, entries) {
            let at = path.push(SegView::Field(field.name@));
            type_report_is_empty_iff_conforming(m, field.ty, v, at, depth);
            lemma_constraints(
                m,
                field.constraints@,
                field.ty,
                v,
                at,
                depth,
                field.constraints@.len(),
            );
        }
        assert(field_errors(m, field, entries, path, depth).len() == 0 <==> field_conforms(
            m,
            field,
            entries,
            depth,
        ));
    }
}

proof fn lemma_unknown(
    fields: Seq<FieldDef>,
    entries: Seq<(ValueView, ValueView)>,
    path: Seq<SegView>,
    n: nat,
)
    requires
        n <= entries.len(),
    ensures
        unknown_errors(fields, entries, path, n).len() == 0 <==> (forall|j: int|
            0 <= j < n ==> is_known_key(fields, (#[trigger] entries[j]).0)),
    decreases n,
{
    if n > 0 {
        lemma_unknown(fields, entries, path, (n - 1) as nat);
    }
}

proof fn lemma_variants(
    m: IrModule,
    variants: Seq<EnumVariant>,
    v: ValueView,
    path: Seq<SegView>,
    depth: nat,
    n: nat,
)
    requires
        n <= variants.len(),
    ensures
        failed_variants(m, variants, v, path, depth, n) is None <==> (exists|i: int|
            0 <= i < n && variant_conforms(m, #[trigger] variants[i], v, depth)),
    decreases MAX_DEPTH - depth, 7int, m, n,
{
    if n > 0 {
        lemma_variants(m, variants, v, path, depth, (n - 1) as nat);
        let variant = variants[n - 1];
        type_report_is_empty_iff_conforming(m, variant.ty, v, path, depth);
        lemma_constraints(
            m,
            variant.constraints@,
            variant.ty,
            v,
            path,
            depth,
            variant.constraints@.len(),
        );
        assert(variant_errors(m, variant, v, path, depth).len() == 0 <==> variant_conforms(
            m,
            variant,
            v,
            depth,
        ));
    }
}

proof fn lemma_items(
    m: IrModule,
    ty: TypeRef,
    items: Seq<ValueView>,
    path: Seq<SegView>,
    depth: nat,
    n: nat,
)
    requires
        n <= items.len(),
    ensures
        items_errors(m, ty, items, path, depth, n).len() == 0 <==> (forall|i: int|
            0 <= i < n ==> ref_conforms(m, ty, #[trigger] items[i], depth)),
    decreases MAX_DEPTH - depth, 2int, m, n,
{
    if n > 0 {
        lemma_items(m, ty, items, path, depth, (n - 1) as nat);
        let at = path.push(SegView::Index((n - 1) as nat));
        type_report_is_empty_iff_conforming(m, ty, items[n - 1], at, depth);
    }
}

/// A type reports nothing on a value exactly where the value conforms to it.
pub proof fn type_report_is_empty_iff_conforming(
    m: IrModule,
    ty: TypeRef,
    v: ValueView,
    path: Seq<SegView>,
    depth: nat,
)
    ensures
        ref_errors(m, ty, v, path, depth).len() == 0 <==> ref_conforms(m, ty, v, depth),
    decreases MAX_DEPTH - depth, 1int, ty, 0int,
{
    match ty {
        TypeRef::Primitive(_) => {},
        TypeRef::Named(name) => {
            if let Some(def) = m.lookup(name@) {
                rule_report_is_empty_iff_conforming(m, def, v, path, depth);
            }
        },
        TypeRef::Choice(variants) => {
            lemma_alternatives(m, variants, v, path, depth, variants@.len());
        },
        TypeRef::Tagged(tag, inner) => {
            if let Ok(item) = payload(Some(tag), v) {
                type_report_is_empty_iff_conforming(m, *inner, item, path, depth);
            }
        },
    }
}

proof fn lemma_alternatives(
    m: IrModule,
    variants: Vec<TypeRef>,
    v: ValueView,
    path: Seq<SegView>,
    depth: nat,
    n: nat,
)
    requires
        n <= variants@.len(),
    ensures
        failed_alternatives(m, variants, v, path, depth, n) is None <==> (exists|i: int|
            0 <= i < n && ref_conforms(m, #[trigger] variants@[i], v, depth)),
    decreases MAX_DEPTH - depth, 1int, variants, n,
{
    if n > 0 {
        lemma_alternatives(m, variants, v, path, depth, (n - 1) as nat);
        type_report_is_empty_iff_conforming(m, variants@[n - 1], v, path, depth);
    }
}

proof fn lemma_constraints(
    m: IrModule,
    constraints: Seq<Constraint>,
    ty: TypeRef,
    v: ValueView,
    path: Seq<SegView>,
    depth: nat,
    n: nat,
)
    requires
        n <= constraints.len(),
    ensures
        constraints_errors(m, constraints, ty, v, path, depth, n).len() == 0 <==> (forall|i: int|
            0 <= i < n ==> constraint_holds(
                m,
                #[trigger] constraints[i],
                base_primitive(m, ty, 0),
                v,
                depth,
            )),
    decreases MAX_DEPTH - depth, 5int, m, n,
{
    if n > 0 {
        lemma_constraints(m, constraints, ty, v, path, depth, (n - 1) as nat);
        let base = base_primitive(m, ty, 0);
        constraint_report_is_empty_iff_holding(m, constraints[n - 1], base, v, path, depth);
    }
}

/// A constraint reports nothing on a value exactly where it holds.
pub proof fn constraint_report_is_empty_iff_holding(
    m: IrModule,
    constraint: Constraint,
    base: Option<Primitive>,
    v: ValueView,
    path: Seq<SegView>,
    depth: nat,
)
    ensures
        constraint_errors(m, constraint, base, v, path, depth).len() == 0 <==> constraint_holds(
            m,
            constraint,
            base,
            v,
            depth,
        ),
    decreases MAX_DEPTH - depth, 4int, m, 0int,
{
    match constraint {
        Constraint::CborEmbedded(inner) => {
            if let Ok(bytes) = carried_bytes(v, encoded_bytes(v)) {
                if let Ok(item) = embedded_item(bytes) {
                    type_report_is_empty_iff_conforming(m, *inner, item, path, depth);
                }
            }
        },
        Constraint::CborSeq(inner) => {
            if let Ok(bytes) = carried_bytes(v, encoded_bytes(v)) {
                let items = embedded_items(bytes).0;
                lemma_items(m, *inner, items, path, depth, items.len());
            }
        },
        _ => {},
    }
}

/// Constraints report nothing on a value exactly where all of them hold.
pub proof fn constraints_report_is_empty_iff_holding(
    m: IrModule,
    constraints: Seq<Constraint>,
    ty: TypeRef,
    v: ValueView,
    path: Seq<SegView>,
    depth: nat,
)
    ensures
        constraints_errors(m, constraints, ty, v, path, depth, constraints.len()).len() == 0
            <==> constraints_hold(m, constraints, ty, v, depth),
{
    lemma_constraints(m, constraints, ty, v, path, depth, constraints.len());
}

/// A variant of an enum reports nothing on a value exactly where the value conforms to
/// it.
pub proof fn variant_report_is_empty_iff_conforming(
    m: IrModule,
    variant: EnumVariant,
    v: ValueView,
    path: Seq<SegView>,
    depth: nat,
)
    ensures
        variant_errors(m, variant, v, path, depth).len() == 0 <==> variant_conforms(
            m,
            variant,
            v,
            depth,
        ),
{
    type_report_is_empty_iff_conforming(m, variant.ty, v, path, depth);
    constraints_report_is_empty_iff_holding(
        m,
        variant.constraints@,
        variant.ty,
        v,
        path,
        depth,
    );
}

/// A report is empty exactly where the document conforms.
pub proof fn report_is_empty_iff_conforming(m: IrModule, name: Seq<char>, v: ValueView)
    ensures
        document_errors(m, name, v).len() == 0 <==> document_conforms(m, name, v),
{
    if let Some(def) = m.lookup(name) {
        rule_report_is_empty_iff_conforming(m, def, v, seq![], 0);
    }
}

} // verus!
