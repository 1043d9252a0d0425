//! That the sign and the payload of a NaN never show: a value is reported on as if
//! every NaN in it were the quiet one.

use vstd::prelude::*;

use crate::error::SegView;
use crate::ir::{Constraint, EnumVariant, FieldDef, FieldKey, IrModule, Primitive, TypeDef, TypeRef};
use crate::rules::{
    array_errors, base_primitive, carried_bytes, constraint_errors, constraints_errors, def_errors,
    described_key, double_range_failure, encoded_bytes, entry_at, enum_errors, equals_literal,
    failed_alternatives, failed_variants, field_errors, field_value, fields_errors, is_key,
    is_known_key, items_errors, kind_name, measured_size, payload, ref_errors, struct_errors,
    unknown_errors, variant_errors, whole_of, MAX_DEPTH,
};
use crate::value::{settled_entries, settled_items, settled_view, ValueView};

verus! {

/// A rule gives the same report whatever sign and payload the NaNs in a value have.
pub proof fn payload_of_a_nan_is_irrelevant(
    m: IrModule,
    def: TypeDef,
    v: ValueView,
    path: Seq<SegView>,
    depth: nat,
)
    ensures
        def_errors(m, def, settled_view(v), path, depth) == def_errors(m, def, v, path, depth),
    decreases MAX_DEPTH - depth, 0int, m, 0int,
{
    let d = depth + 1;
    if depth < MAX_DEPTH {
        match def {
            TypeDef::Struct(s) => {
                if let Ok(inner) = payload(s.tagged, v) {
                    let same = settled_view(inner);
                    assert(payload(s.tagged, settled_view(v)) == Ok::<ValueView, Seq<char>>(same));
                    if let ValueView::Mapping(entries) = inner {
                        lemma_fields(m, s.fields@, entries, path, d, s.fields@.len());
                        lemma_unknown(s.fields@, entries, path, entries.len());
                    }
                    assert(struct_errors(m, s, same, path, d) == struct_errors(m, s, inner, path, d));
                }
            },
            TypeDef::Enum(e) => {
                if let Ok(inner) = payload(e.tagged, v) {
                    let same = settled_view(inner);
                    assert(payload(e.tagged, settled_view(v)) == Ok::<ValueView, Seq<char>>(same));
                    lemma_variants(m, e.variants@, inner, path, d, e.variants@.len());
                    assert(enum_errors(m, e, same, path, d) == enum_errors(m, e, inner, path, d));
                }
            },
            TypeDef::Array(a) => {
                if let Ok(inner) = payload(a.tagged, v) {
                    let same = settled_view(inner);
                    assert(payload(a.tagged, settled_view(v)) == Ok::<ValueView, Seq<char>>(same));
                    if let ValueView::Array(items) = inner {
                        lemma_items(m, a.element, items, path, d, items.len());
                    }
                    assert(array_errors(m, a, same, path, d) == array_errors(m, a, inner, path, d));
                }
            },
            TypeDef::Table(_) => {},
            TypeDef::Alias(a) => {
                if let Ok(inner) = payload(a.tagged, v) {
                    let same = settled_view(inner);
                    assert(payload(a.tagged, settled_view(v)) == Ok::<ValueView, Seq<char>>(same));
                    payload_of_a_nan_is_irrelevant_to_a_type(m, a.ty, inner, path, d);
                    lemma_constraints(
                        m,
                        a.constraints@,
                        a.ty,
                        inner,
                        path,
                        d,
                        a.constraints@.len(),
                    );
                }
            },
        }
    }
}

/// A type gives the same report whatever sign and payload the NaNs in a value have.
pub proof fn payload_of_a_nan_is_irrelevant_to_a_type(
    m: IrModule,
    ty: TypeRef,
    v: ValueView,
    path: Seq<SegView>,
    depth: nat,
)
    ensures
        ref_errors(m, ty, settled_view(v), path, depth) == ref_errors(m, ty, v, path, depth),
    decreases MAX_DEPTH - depth, 1int, ty, 0int,
{
    match ty {
        TypeRef::Primitive(_) => {},
        TypeRef::Named(name) => {
            if let Some(def) = m.lookup(name@) {
                payload_of_a_nan_is_irrelevant(m, def, v, path, depth);
            }
        },
        TypeRef::Choice(variants) => {
            lemma_alternatives(m, variants, v, path, depth, variants@.len());
        },
        TypeRef::Tagged(tag, inner) => {
            if let Ok(item) = payload(Some(tag), v) {
                payload_of_a_nan_is_irrelevant_to_a_type(m, *inner, item, path, depth);
            }
        },
    }
}

proof fn lemma_field_value(key: FieldKey, entries: Seq<(ValueView, ValueView)>)
    ensures
        field_value(key, settled_entries(entries)) == (match field_value(key, entries) {
            Some(v) => Some(settled_view(v)),
            None => None,
        }),
{
    let same = settled_entries(entries);
    assert forall|i: int| 0 <= i < entries.len() implies is_key(key, (#[trigger] same[i]).0)
        == is_key(key, entries[i].0) by {
        assert(same[i].0 == settled_view(entries[i].0));
    }
    assert forall|i: int| #[trigger] entry_at(key, same, i) == entry_at(key, entries, i) by {
        assert forall|j: int| 0 <= j < entries.len() implies is_key(key, (#[trigger] entries[j]).0)
            == is_key(key, same[j].0) by {
            assert(is_key(key, same[j].0) == is_key(key, entries[j].0));
        }
    }
    if exists|i: int| entry_at(key, entries, i) {
        let i = choose|i: int| entry_at(key, entries, i);
        assert(entry_at(key, same, i));
        let j = choose|j: int| entry_at(key, same, j);
        assert(entry_at(key, entries, j));
        assert(!(i < j) && !(j < i));
    }
}

proof fn lemma_fields(
    m: IrModule,
    fields: Seq<FieldDef>,
    entries: Seq<(ValueView, ValueView)>,
    path: Seq<SegView>,
    depth: nat,
    n: nat,
)
    ensures
        fields_errors(m, fields, settled_entries(entries), path, depth, n) == fields_errors(
            m,
            fields,
            entries,
            path,
            depth,
            n,
        ),
    decreases MAX_DEPTH - depth, 7int, m, n,
{
    if n > 0 {
        lemma_fields(m, fields, entries, path, depth, (n - 1) as nat);
        let field = fields[n - 1];
        lemma_field_value(field.key, entries);
        if let Some(v) = field_value(field.key, entries) {
            let at = path.push(SegView::Field(field.name@));
            payload_of_a_nan_is_irrelevant_to_a_type(m, field.ty, v, at, depth);
            lemma_constraints(
                m,
                field.constraints@,
                field.ty,
                v,
                at,
                depth,
                field.constraints@.len(),
            );
        }
        assert(field_errors(m, field, settled_entries(entries), path, depth) == field_errors(
            m,
            field,
            entries,
            path,
            depth,
        ));
    }
}

proof fn lemma_unknown(
    fields: Seq<FieldDef>,
    entries: Seq<(ValueView, ValueView)>,
    path: Seq<SegView>,
    n: nat,
)
    requires
        n <= entries.len(),
    ensures
        unknown_errors(fields, settled_entries(entries), path, n) == unknown_errors(
            fields,
            entries,
            path,
            n,
        ),
    decreases n,
{
    if n > 0 {
        lemma_unknown(fields, entries, path, (n - 1) as nat);
        let key = entries[n - 1].0;
        let same = settled_entries(entries)[n - 1].0;
        assert(same == settled_view(key));
        assert(described_key(same) == described_key(key));
        assert forall|i: int| 0 <= i < fields.len() implies is_key((#[trigger] fields[i]).key, same)
            == is_key(fields[i].key, key) by {}
        assert(is_known_key(fields, same) == is_known_key(fields, key));
    }
}

proof fn lemma_variants(
    m: IrModule,
    variants: Seq<EnumVariant>,
    v: ValueView,
    path: Seq<SegView>,
    depth: nat,
    n: nat,
)
    ensures
        failed_variants(m, variants, settled_view(v), path, depth, n) == failed_variants(
            m,
            variants,
            v,
            path,
            depth,
            n,
        ),
    decreases MAX_DEPTH - depth, 7int, m, n,
{
    if n > 0 {
        lemma_variants(m, variants, v, path, depth, (n - 1) as nat);
        let variant = variants[n - 1];
        payload_of_a_nan_is_irrelevant_to_a_type(m, variant.ty, v, path, depth);
        lemma_constraints(
            m,
            variant.constraints@,
            variant.ty,
            v,
            path,
            depth,
            variant.constraints@.len(),
        );
        assert(variant_errors(m, variant, settled_view(v), path, depth) == variant_errors(
            m,
            variant,
            v,
            path,
            depth,
        ));
    }
}

/// Items give the same report whatever sign and payload the NaNs in them have.
pub(crate) proof fn lemma_items(
    m: IrModule,
    ty: TypeRef,
    items: Seq<ValueView>,
    path: Seq<SegView>,
    depth: nat,
    n: nat,
)
    requires
        n <= items.len(),
    ensures
        items_errors(m, ty, settled_items(items), path, depth, n) == items_errors(
            m,
            ty,
            items,
            path,
            depth,
            n,
        ),
    decreases MAX_DEPTH - depth, 2int, m, n,
{
    if n > 0 {
        let at = path.push(SegView::Index((n - 1) as nat));
        lemma_items(m, ty, items, path, depth, (n - 1) as nat);
        payload_of_a_nan_is_irrelevant_to_a_type(m, ty, items[n - 1], at, depth);
        assert(settled_items(items)[n - 1] == settled_view(items[n - 1]));
    }
}

proof fn lemma_alternatives(
    m: IrModule,
    variants: Vec<TypeRef>,
    v: ValueView,
    path: Seq<SegView>,
    depth: nat,
    n: nat,
)
    ensures
        failed_alternatives(m, variants, settled_view(v), path, depth, n) == failed_alternatives(
            m,
            variants,
            v,
            path,
            depth,
            n,
        ),
    decreases MAX_DEPTH - depth, 1int, variants, n,
{
    if 0 < n <= variants@.len() {
        lemma_alternatives(m, variants, v, path, depth, (n - 1) as nat);
        payload_of_a_nan_is_irrelevant_to_a_type(m, variants@[n - 1], v, path, depth);
    }
}

proof fn lemma_constraints(
    m: IrModule,
    constraints: Seq<Constraint>,
    ty: TypeRef,
    v: ValueView,
    path: Seq<SegView>,
    depth: nat,
    n: nat,
)
    ensures
        constraints_errors(m, constraints, ty, settled_view(v), path, depth, n)
            == constraints_errors(m, constraints, ty, v, path, depth, n),
    decreases MAX_DEPTH - depth, 5int, m, n,
{
    if n > 0 {
        lemma_constraints(m, constraints, ty, v, path, depth, (n - 1) as nat);
        lemma_constraint(m, constraints[n - 1], base_primitive(m, ty, 0), v, path, depth);
    }
}

proof fn lemma_constraint(
    m: IrModule,
    constraint: Constraint,
    base: Option<Primitive>,
    v: ValueView,
    path: Seq<SegView>,
    depth: nat,
)
    ensures
        constraint_errors(m, constraint, base, settled_view(v), path, depth) == constraint_errors(
            m,
            constraint,
            base,
            v,
            path,
            depth,
        ),
    decreases MAX_DEPTH - depth, 4int, m, 0int,
{
    let same = settled_view(v);
    assert(kind_name(same) == kind_name(v));
    assert(encoded_bytes(same) == encoded_bytes(v));
    let encoded = encoded_bytes(v);
    if let ValueView::Array(items) = v {
        assert(settled_items(items).len() == items.len());
    }
    assert(whole_of(same) == whole_of(v));
    assert(measured_size(base, same, encoded) == measured_size(base, v, encoded));
    assert(carried_bytes(same, encoded) == carried_bytes(v, encoded));
    match constraint {
        Constraint::ValueRangeF64 { min, max, inclusive } => {
            assert(double_range_failure(same, min, max, inclusive) == double_range_failure(
                v,
                min,
                max,
                inclusive,
            ));
        },
        Constraint::Eq(literal) | Constraint::Ne(literal) => {
            assert(equals_literal(literal, same, encoded) == equals_literal(literal, v, encoded));
        },
        _ => {},
    }
}

} // verus!
