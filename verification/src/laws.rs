//! Laws of validation: what holds of every schema and every document.

use ciborium::Value as CborValue;
use vstd::float::FloatBitsProperties;
use vstd::prelude::*;
use vstd::seq_lib::lemma_multiset_commutative;

use crate::base64url::base64url;
use crate::cbor::cbor_integer;
use crate::conformance::{
    array_conforms, constraint_holds, constraints_hold, def_conforms, document_conforms,
    enum_conforms, field_conforms, in_range, items_conform, ref_conforms, struct_conforms,
    variant_conforms,
};
use crate::error::{ErrorView, SegView};
use crate::ir::{
    AliasDef, ArrayDef, CborTag, Constraint, EnumDef, EnumVariant, FieldDef, FieldKey, IrModule,
    LiteralValue, Primitive, StructDef, TypeDef, TypeRef,
};
use crate::json::JsonTree;
use crate::rules::{
    array_errors, base_primitive, cardinality_failure, carried_bytes, constraint_errors,
    constraints_errors, def_errors, described_key, document_errors, embedded_errors, embedded_item,
    embedded_items, encoded_bytes, entry_at, enum_errors, equals_literal, failed_alternatives,
    failed_variants, field_errors, field_value, fields_errors, integer_of, is_key, is_known_key,
    is_of, items_errors, payload, ref_errors, report, report_any, sequence_errors, sequence_failure,
    struct_errors, too_deep, unknown_errors, variant_errors, whole_of, MAX_DEPTH,
};
use crate::text::decimal;
use crate::value::{
    cbor_entries_view, cbor_items_view, cbor_view, integer_view, json_view,
    only_negative_is_signed, ValueView,
};

verus! {

// Where failures are reported.

/// The same failures, found below `prefix`.
pub open spec fn moved(errors: Seq<ErrorView>, prefix: Seq<SegView>) -> Seq<ErrorView> {
    errors.map_values(
        |error: ErrorView| ErrorView { path: prefix + error.path, message: error.message },
    )
}

proof fn lemma_moved_join(a: Seq<ErrorView>, b: Seq<ErrorView>, prefix: Seq<SegView>)
    ensures
        moved(a + b, prefix) == moved(a, prefix) + moved(b, prefix),
{
    assert(moved(a + b, prefix) =~= moved(a, prefix) + moved(b, prefix));
}

/// Where a value stands changes where its failures are reported, and nothing else:
/// the failures below a path are those at the root, each with that path in front.
pub proof fn failures_move_with_the_path(
    m: IrModule,
    def: TypeDef,
    v: ValueView,
    prefix: Seq<SegView>,
    path: Seq<SegView>,
    depth: nat,
)
    ensures
        def_errors(m, def, v, prefix + path, depth) == moved(
            def_errors(m, def, v, path, depth),
            prefix,
        ),
    decreases MAX_DEPTH - depth, 0int, m, 0int,
{
    let d = depth + 1;
    if depth < MAX_DEPTH {
        match def {
            TypeDef::Struct(s) => {
                if let Ok(inner) = payload(s.tagged, v) {
                    if let ValueView::Mapping(entries) = inner {
                        let n = s.fields@.len();
                        lemma_fields_move(m, s.fields@, entries, prefix, path, d, n);
                        lemma_unknown_move(s.fields@, entries, prefix, path, entries.len());
                        lemma_moved_join(
                            fields_errors(m, s.fields@, entries, path, d, n),
                            unknown_errors(s.fields@, entries, path, entries.len()),
                            prefix,
                        );
                    }
                    assert(struct_errors(m, s, inner, prefix + path, d) =~= moved(
                        struct_errors(m, s, inner, path, d),
                        prefix,
                    ));
                }
            },
            TypeDef::Enum(e) => {
                if let Ok(inner) = payload(e.tagged, v) {
                    lemma_variants_move(m, e.variants@, inner, prefix, path, d, e.variants@.len());
                    assert(enum_errors(m, e, inner, prefix + path, d) =~= moved(
                        enum_errors(m, e, inner, path, d),
                        prefix,
                    ));
                }
            },
            TypeDef::Array(a) => {
                if let Ok(inner) = payload(a.tagged, v) {
                    if let ValueView::Array(items) = inner {
                        lemma_items_move(m, a.element, items, prefix, path, d, items.len());
                    }
                    assert(array_errors(m, a, inner, prefix + path, d) =~= moved(
                        array_errors(m, a, inner, path, d),
                        prefix,
                    ));
                }
            },
            TypeDef::Table(_) => {},
            TypeDef::Alias(a) => {
                if let Ok(inner) = payload(a.tagged, v) {
                    let n = a.constraints@.len();
                    type_failures_move_with_the_path(m, a.ty, inner, prefix, path, d);
                    lemma_constraints_move(m, a.constraints@, a.ty, inner, prefix, path, d, n);
                    lemma_moved_join(
                        ref_errors(m, a.ty, inner, path, d),
                        constraints_errors(m, a.constraints@, a.ty, inner, path, d, n),
                        prefix,
                    );
                }
            },
        }
    }
    assert(def_errors(m, def, v, prefix + path, depth) =~= moved(
        def_errors(m, def, v, path, depth),
        prefix,
    ));
}

proof fn lemma_fields_move(
    m: IrModule,
    fields: Seq<FieldDef>,
    entries: Seq<(ValueView, ValueView)>,
    prefix: Seq<SegView>,
    path: Seq<SegView>,
    depth: nat,
    n: nat,
)
    ensures
        fields_errors(m, fields, entries, prefix + path, depth, n) == moved(
            fields_errors(m, fields, entries, path, depth, n),
            prefix,
        ),
    decreases MAX_DEPTH - depth, 7int, m, n,
{
    if n > 0 {
        lemma_fields_move(m, fields, entries, prefix, path, depth, (n - 1) as nat);
        let field = fields[n - 1];
        if let Some(v) = field_value(field.key, entries) {
            let step = SegView::Field(field.name@);
            let k = field.constraints@.len();
            assert((prefix + path).push(step) =~= prefix + path.push(step));
            type_failures_move_with_the_path(m, field.ty, v, prefix, path.push(step), depth);
            lemma_constraints_move(
                m,
                field.constraints@,
                field.ty,
                v,
                prefix,
                path.push(step),
                depth,
                k,
            );
            lemma_moved_join(
                ref_errors(m, field.ty, v, path.push(step), depth),
                constraints_errors(m, field.constraints@, field.ty, v, path.push(step), depth, k),
                prefix,
            );
        }
        assert(field_errors(m, field, entries, prefix + path, depth) =~= moved(
            field_errors(m, field, entries, path, depth),
            prefix,
        ));
        lemma_moved_join(
            fields_errors(m, fields, entries, path, depth, (n - 1) as nat),
            field_errors(m, field, entries, path, depth),
            prefix,
        );
    } else {
        assert(moved(seq![], prefix) =~= seq![]);
    }
}

proof fn lemma_unknown_move(
    fields: Seq<FieldDef>,
    entries: Seq<(ValueView, ValueView)>,
    prefix: Seq<SegView>,
    path: Seq<SegView>,
    n: nat,
)
    ensures
        unknown_errors(fields, entries, prefix + path, n) == moved(
            unknown_errors(fields, entries, path, n),
            prefix,
        ),
    decreases n,
{
    if n > 0 {
        lemma_unknown_move(fields, entries, prefix, path, (n - 1) as nat);
    }
    assert(unknown_errors(fields, entries, prefix + path, n) =~= moved(
        unknown_errors(fields, entries, path, n),
        prefix,
    ));
}

proof fn lemma_variants_move(
    m: IrModule,
    variants: Seq<EnumVariant>,
    v: ValueView,
    prefix: Seq<SegView>,
    path: Seq<SegView>,
    depth: nat,
    n: nat,
)
    ensures
        failed_variants(m, variants, v, prefix + path, depth, n) == failed_variants(
            m,
            variants,
            v,
            path,
            depth,
            n,
        ),
    decreases MAX_DEPTH - depth, 7int, m, n,
{
    if n > 0 {
        lemma_variants_move(m, variants, v, prefix, path, depth, (n - 1) as nat);
        let variant = variants[n - 1];
        let k = variant.constraints@.len();
        type_failures_move_with_the_path(m, variant.ty, v, prefix, path, depth);
        lemma_constraints_move(m, variant.constraints@, variant.ty, v, prefix, path, depth, k);
        lemma_moved_join(
            ref_errors(m, variant.ty, v, path, depth),
            constraints_errors(m, variant.constraints@, variant.ty, v, path, depth, k),
            prefix,
        );
        assert(variant_errors(m, variant, v, prefix + path, depth) == moved(
            variant_errors(m, variant, v, path, depth),
            prefix,
        ));
    }
}

proof fn lemma_items_move(
    m: IrModule,
    ty: TypeRef,
    items: Seq<ValueView>,
    prefix: Seq<SegView>,
    path: Seq<SegView>,
    depth: nat,
    n: nat,
)
    ensures
        items_errors(m, ty, items, prefix + path, depth, n) == moved(
            items_errors(m, ty, items, path, depth, n),
            prefix,
        ),
    decreases MAX_DEPTH - depth, 2int, m, n,
{
    if n > 0 {
        let step = SegView::Index((n - 1) as nat);
        lemma_items_move(m, ty, items, prefix, path, depth, (n - 1) as nat);
        assert((prefix + path).push(step) =~= prefix + path.push(step));
        type_failures_move_with_the_path(m, ty, items[n - 1], prefix, path.push(step), depth);
        lemma_moved_join(
            items_errors(m, ty, items, path, depth, (n - 1) as nat),
            ref_errors(m, ty, items[n - 1], path.push(step), depth),
            prefix,
        );
    } else {
        assert(moved(seq![], prefix) =~= seq![]);
    }
}

/// The same of a type: the failures of a value below a path are those at the root,
/// each with that path in front.
pub proof fn type_failures_move_with_the_path(
    m: IrModule,
    ty: TypeRef,
    v: ValueView,
    prefix: Seq<SegView>,
    path: Seq<SegView>,
    depth: nat,
)
    ensures
        ref_errors(m, ty, v, prefix + path, depth) == moved(
            ref_errors(m, ty, v, path, depth),
            prefix,
        ),
    decreases MAX_DEPTH - depth, 1int, ty, 0int,
{
    match ty {
        TypeRef::Primitive(_) => {},
        TypeRef::Named(name) => {
            if let Some(def) = m.lookup(name@) {
                failures_move_with_the_path(m, def, v, prefix, path, depth);
            }
        },
        TypeRef::Choice(variants) => {
            lemma_alternatives_move(m, variants, v, prefix, path, depth, variants@.len());
        },
        TypeRef::Tagged(tag, inner) => {
            if let Ok(item) = payload(Some(tag), v) {
                type_failures_move_with_the_path(m, *inner, item, prefix, path, depth);
            }
        },
    }
    assert(ref_errors(m, ty, v, prefix + path, depth) =~= moved(
        ref_errors(m, ty, v, path, depth),
        prefix,
    ));
}

proof fn lemma_alternatives_move(
    m: IrModule,
    variants: Vec<TypeRef>,
    v: ValueView,
    prefix: Seq<SegView>,
    path: Seq<SegView>,
    depth: nat,
    n: nat,
)
    ensures
        failed_alternatives(m, variants, v, prefix + path, depth, n) == failed_alternatives(
            m,
            variants,
            v,
            path,
            depth,
            n,
        ),
    decreases MAX_DEPTH - depth, 1int, variants, n,
{
    if 0 < n <= variants@.len() {
        lemma_alternatives_move(m, variants, v, prefix, path, depth, (n - 1) as nat);
        type_failures_move_with_the_path(m, variants@[n - 1], v, prefix, path, depth);
    }
}

proof fn lemma_constraints_move(
    m: IrModule,
    constraints: Seq<Constraint>,
    ty: TypeRef,
    v: ValueView,
    prefix: Seq<SegView>,
    path: Seq<SegView>,
    depth: nat,
    n: nat,
)
    ensures
        constraints_errors(m, constraints, ty, v, prefix + path, depth, n) == moved(
            constraints_errors(m, constraints, ty, v, path, depth, n),
            prefix,
        ),
    decreases MAX_DEPTH - depth, 5int, m, n,
{
    if n > 0 {
        let base = base_primitive(m, ty, 0);
        lemma_constraints_move(m, constraints, ty, v, prefix, path, depth, (n - 1) as nat);
        lemma_constraint_move(m, constraints[n - 1], base, v, prefix, path, depth);
        lemma_moved_join(
            constraints_errors(m, constraints, ty, v, path, depth, (n - 1) as nat),
            constraint_errors(m, constraints[n - 1], base, v, path, depth),
            prefix,
        );
    } else {
        assert(moved(seq![], prefix) =~= seq![]);
    }
}

proof fn lemma_constraint_move(
    m: IrModule,
    constraint: Constraint,
    base: Option<Primitive>,
    v: ValueView,
    prefix: Seq<SegView>,
    path: Seq<SegView>,
    depth: nat,
)
    ensures
        constraint_errors(m, constraint, base, v, prefix + path, depth) == moved(
            constraint_errors(m, constraint, base, v, path, depth),
            prefix,
        ),
    decreases MAX_DEPTH - depth, 4int, m, 0int,
{
    match constraint {
        Constraint::CborEmbedded(inner) => {
            if let Ok(bytes) = carried_bytes(v, encoded_bytes(v)) {
                let read = embedded_item(bytes);
                if let Ok(item) = read {
                    type_failures_move_with_the_path(m, *inner, item, prefix, path, depth);
                }
                assert(embedded_errors(m, *inner, read, prefix + path, depth) =~= moved(
                    embedded_errors(m, *inner, read, path, depth),
                    prefix,
                ));
            }
        },
        Constraint::CborSeq(inner) => {
            if let Ok(bytes) = carried_bytes(v, encoded_bytes(v)) {
                let read = embedded_items(bytes);
                lemma_items_move(m, *inner, read.0, prefix, path, depth, read.0.len());
                assert(sequence_errors(m, *inner, read, prefix + path, depth) =~= moved(
                    sequence_errors(m, *inner, read, path, depth),
                    prefix,
                ));
            }
        },
        _ => {},
    }
    assert(constraint_errors(m, constraint, base, v, prefix + path, depth) =~= moved(
        constraint_errors(m, constraint, base, v, path, depth),
        prefix,
    ));
}

/// A failure lies at a path or below it, and the steps from there are fields and
/// indices.
pub open spec fn lies_below(error: ErrorView, path: Seq<SegView>) -> bool {
    &&& path.is_prefix_of(error.path)
    &&& forall|i: int|
        path.len() <= i < error.path.len() ==> (#[trigger] error.path[i]) is Field
            || error.path[i] is Index
}

pub open spec fn all_lie_below(errors: Seq<ErrorView>, path: Seq<SegView>) -> bool {
    forall|i: int| 0 <= i < errors.len() ==> lies_below(#[trigger] errors[i], path)
}

proof fn lemma_below_join(a: Seq<ErrorView>, b: Seq<ErrorView>, path: Seq<SegView>)
    requires
        all_lie_below(a, path),
        all_lie_below(b, path),
    ensures
        all_lie_below(a + b, path),
{
    assert forall|i: int| 0 <= i < (a + b).len() implies lies_below(#[trigger] (a + b)[i], path) by {
        if i < a.len() {
            assert((a + b)[i] == a[i]);
        } else {
            assert((a + b)[i] == b[i - a.len()]);
        }
    }
}

proof fn lemma_below_step(errors: Seq<ErrorView>, path: Seq<SegView>, step: SegView)
    requires
        all_lie_below(errors, path.push(step)),
        step is Field || step is Index,
    ensures
        all_lie_below(errors, path),
{
    assert forall|i: int| 0 <= i < errors.len() implies lies_below(#[trigger] errors[i], path) by {
        let found = errors[i].path;
        let further = path.push(step);
        assert(lies_below(errors[i], further));
        assert(found.subrange(0, further.len() as int) == further);
        assert forall|j: int| 0 <= j < path.len() implies path[j] == found[j] by {
            assert(further[j] == found.subrange(0, further.len() as int)[j]);
        }
        assert(found[path.len() as int] == step) by {
            let last = path.len() as int;
            assert(further[last] == found.subrange(0, further.len() as int)[last]);
        }
        assert(path =~= found.subrange(0, path.len() as int));
        assert forall|j: int| path.len() <= j < found.len() implies (#[trigger] found[j]) is Field
            || found[j] is Index by {
            if j > path.len() {
                assert(further.len() <= j);
            }
        }
    }
}

proof fn lemma_report_below(path: Seq<SegView>, message: Seq<char>)
    ensures
        all_lie_below(report(path, message), path),
{
    assert(path =~= path.subrange(0, path.len() as int));
}

/// Every failure is reported at the path of the value that a rule checks, or below it
/// by fields and indices.
pub proof fn failures_stay_below_their_path(
    m: IrModule,
    def: TypeDef,
    v: ValueView,
    path: Seq<SegView>,
    depth: nat,
)
    ensures
        all_lie_below(def_errors(m, def, v, path, depth), path),
    decreases MAX_DEPTH - depth, 0int, m, 0int,
{
    let d = depth + 1;
    assert forall|message: Seq<char>| all_lie_below(#[trigger] report(path, message), path) by {
        lemma_report_below(path, message);
    }
    if depth < MAX_DEPTH {
        match def {
            TypeDef::Struct(s) => {
                if let Ok(inner) = payload(s.tagged, v) {
                    if let ValueView::Mapping(entries) = inner {
                        lemma_fields_below(m, s.fields@, entries, path, d, s.fields@.len());
                        lemma_unknown_below(s.fields@, entries, path, entries.len());
                        lemma_below_join(
                            fields_errors(m, s.fields@, entries, path, d, s.fields@.len()),
                            unknown_errors(s.fields@, entries, path, entries.len()),
                            path,
                        );
                    }
                    assert(all_lie_below(struct_errors(m, s, inner, path, d), path));
                }
            },
            TypeDef::Enum(e) => {
                if let Ok(inner) = payload(e.tagged, v) {
                    assert(all_lie_below(enum_errors(m, e, inner, path, d), path));
                }
            },
            TypeDef::Array(a) => {
                if let Ok(inner) = payload(a.tagged, v) {
                    if let ValueView::Array(items) = inner {
                        lemma_items_below(m, a.element, items, path, d, items.len());
                        lemma_below_join(
                            report_any(
                                path,
                                cardinality_failure(a.occurrence, items.len(), a.name@),
                            ),
                            items_errors(m, a.element, items, path, d, items.len()),
                            path,
                        );
                    }
                    assert(all_lie_below(array_errors(m, a, inner, path, d), path));
                }
            },
            TypeDef::Table(_) => {},
            TypeDef::Alias(a) => {
                if let Ok(inner) = payload(a.tagged, v) {
                    let n = a.constraints@.len();
                    type_failures_stay_below_their_path(m, a.ty, inner, path, d);
                    lemma_constraints_below(m, a.constraints@, a.ty, inner, path, d, n);
                    lemma_below_join(
                        ref_errors(m, a.ty, inner, path, d),
                        constraints_errors(m, a.constraints@, a.ty, inner, path, d, n),
                        path,
                    );
                }
            },
        }
    }
}

/// Every failure is reported at the path of the value that is checked against a type,
/// or below it by fields and indices.
pub proof fn type_failures_stay_below_their_path(
    m: IrModule,
    ty: TypeRef,
    v: ValueView,
    path: Seq<SegView>,
    depth: nat,
)
    ensures
        all_lie_below(ref_errors(m, ty, v, path, depth), path),
    decreases MAX_DEPTH - depth, 1int, ty, 0int,
{
    assert forall|message: Seq<char>| all_lie_below(#[trigger] report(path, message), path) by {
        lemma_report_below(path, message);
    }
    match ty {
        TypeRef::Named(name) => {
            if let Some(def) = m.lookup(name@) {
                failures_stay_below_their_path(m, def, v, path, depth);
            }
        },
        TypeRef::Tagged(tag, inner) => {
            if let Ok(item) = payload(Some(tag), v) {
                type_failures_stay_below_their_path(m, *inner, item, path, depth);
            }
        },
        _ => {},
    }
}

proof fn lemma_fields_below(
    m: IrModule,
    fields: Seq<FieldDef>,
    entries: Seq<(ValueView, ValueView)>,
    path: Seq<SegView>,
    depth: nat,
    n: nat,
)
    ensures
        all_lie_below(fields_errors(m, fields, entries, path, depth, n), path),
    decreases MAX_DEPTH - depth, 7int, m, n,
{
    if n > 0 {
        lemma_fields_below(m, fields, entries, path, depth, (n - 1) as nat);
        let field = fields[n - 1];
        let message = "missing required field '"@ + field.name@ + "'"@;
        lemma_report_below(path, message);
        if let Some(v) = field_value(field.key, entries) {
            let step = SegView::Field(field.name@);
            let at = path.push(step);
            let k = field.constraints@.len();
            type_failures_stay_below_their_path(m, field.ty, v, at, depth);
            lemma_constraints_below(m, field.constraints@, field.ty, v, at, depth, k);
            lemma_below_join(
                ref_errors(m, field.ty, v, at, depth),
                constraints_errors(m, field.constraints@, field.ty, v, at, depth, k),
                at,
            );
            lemma_below_step(field_errors(m, field, entries, path, depth), path, step);
        }
        lemma_below_join(
            fields_errors(m, fields, entries, path, depth, (n - 1) as nat),
            field_errors(m, field, entries, path, depth),
            path,
        );
    }
}

proof fn lemma_unknown_below(
    fields: Seq<FieldDef>,
    entries: Seq<(ValueView, ValueView)>,
    path: Seq<SegView>,
    n: nat,
)
    ensures
        all_lie_below(unknown_errors(fields, entries, path, n), path),
    decreases n,
{
    if n > 0 {
        lemma_unknown_below(fields, entries, path, (n - 1) as nat);
        let message = "unknown field "@ + described_key(entries[n - 1].0);
        lemma_report_below(path, message);
        lemma_below_join(
            unknown_errors(fields, entries, path, (n - 1) as nat),
            report(path, message),
            path,
        );
    }
}

proof fn lemma_items_below(
    m: IrModule,
    ty: TypeRef,
    items: Seq<ValueView>,
    path: Seq<SegView>,
    depth: nat,
    n: nat,
)
    ensures
        all_lie_below(items_errors(m, ty, items, path, depth, n), path),
    decreases MAX_DEPTH - depth, 2int, m, n,
{
    if n > 0 {
        let step = SegView::Index((n - 1) as nat);
        lemma_items_below(m, ty, items, path, depth, (n - 1) as nat);
        type_failures_stay_below_their_path(m, ty, items[n - 1], path.push(step), depth);
        let here = ref_errors(m, ty, items[n - 1], path.push(step), depth);
        lemma_below_step(here, path, step);
        lemma_below_join(
            items_errors(m, ty, items, path, depth, (n - 1) as nat),
            here,
            path,
        );
    }
}

proof fn lemma_constraints_below(
    m: IrModule,
    constraints: Seq<Constraint>,
    ty: TypeRef,
    v: ValueView,
    path: Seq<SegView>,
    depth: nat,
    n: nat,
)
    ensures
        all_lie_below(constraints_errors(m, constraints, ty, v, path, depth, n), path),
    decreases MAX_DEPTH - depth, 5int, m, n,
{
    if n > 0 {
        let base = base_primitive(m, ty, 0);
        lemma_constraints_below(m, constraints, ty, v, path, depth, (n - 1) as nat);
        lemma_constraint_below(m, constraints[n - 1], base, v, path, depth);
        lemma_below_join(
            constraints_errors(m, constraints, ty, v, path, depth, (n - 1) as nat),
            constraint_errors(m, constraints[n - 1], base, v, path, depth),
            path,
        );
    }
}

proof fn lemma_constraint_below(
    m: IrModule,
    constraint: Constraint,
    base: Option<Primitive>,
    v: ValueView,
    path: Seq<SegView>,
    depth: nat,
)
    ensures
        all_lie_below(constraint_errors(m, constraint, base, v, path, depth), path),
    decreases MAX_DEPTH - depth, 4int, m, 0int,
{
    assert forall|message: Seq<char>| all_lie_below(#[trigger] report(path, message), path) by {
        lemma_report_below(path, message);
    }
    match constraint {
        Constraint::CborEmbedded(inner) => {
            if let Ok(bytes) = carried_bytes(v, encoded_bytes(v)) {
                let read = embedded_item(bytes);
                if let Ok(item) = read {
                    type_failures_stay_below_their_path(m, *inner, item, path, depth);
                }
                assert(all_lie_below(embedded_errors(m, *inner, read, path, depth), path));
            }
        },
        Constraint::CborSeq(inner) => {
            if let Ok(bytes) = carried_bytes(v, encoded_bytes(v)) {
                let read = embedded_items(bytes);
                lemma_items_below(m, *inner, read.0, path, depth, read.0.len());
                lemma_below_join(
                    items_errors(m, *inner, read.0, path, depth, read.0.len()),
                    report_any(path, sequence_failure(read)),
                    path,
                );
                assert(all_lie_below(sequence_errors(m, *inner, read, path, depth), path));
            }
        },
        _ => {},
    }
}

/// A failed choice between types reports one failure, at the choice itself: what its
/// alternatives reported is only quoted.
pub proof fn choice_reports_once(
    m: IrModule,
    variants: Vec<TypeRef>,
    v: ValueView,
    path: Seq<SegView>,
    depth: nat,
)
    ensures
        ({
            let errors = ref_errors(m, TypeRef::Choice(variants), v, path, depth);
            errors.len() == 0 || (errors.len() == 1 && errors[0].path == path)
        }),
{
}

/// A failed enum reports one failure, at the enum itself: what its variants reported
/// is only quoted.
pub proof fn enum_reports_once(
    m: IrModule,
    e: EnumDef,
    v: ValueView,
    path: Seq<SegView>,
    depth: nat,
)
    ensures
        ({
            let errors = def_errors(m, TypeDef::Enum(e), v, path, depth);
            errors.len() == 0 || (errors.len() == 1 && errors[0].path == path)
        }),
{
    if let Ok(inner) = payload(e.tagged, v) {
        let errors = enum_errors(m, e, inner, path, depth + 1);
        assert(errors.len() == 0 || (errors.len() == 1 && errors[0].path == path));
    }
}

proof fn lemma_failed_variants(
    m: IrModule,
    variants: Seq<EnumVariant>,
    v: ValueView,
    path: Seq<SegView>,
    depth: nat,
    n: nat,
)
    ensures
        failed_variants(m, variants, v, path, depth, n) is None <==> exists|i: int|
            0 <= i < n && variant_errors(m, #[trigger] variants[i], v, path, depth).len() == 0,
    decreases n,
{
    if n > 0 {
        lemma_failed_variants(m, variants, v, path, depth, (n - 1) as nat);
        assert(variant_errors(m, variants[n - 1], v, path, depth).len() >= 0);
    }
}

/// An enum reports nothing exactly where some variant matches, and otherwise one
/// failure, at the enum itself, that names the enum.
pub proof fn enum_needs_one_variant(
    m: IrModule,
    e: EnumDef,
    v: ValueView,
    path: Seq<SegView>,
    depth: nat,
)
    ensures
        ({
            let errors = enum_errors(m, e, v, path, depth);
            let head = "value matched no variant of '"@ + e.name@ + "'"@;
            &&& errors.len() == 0 <==> exists|i: int|
                0 <= i < e.variants@.len() && variant_errors(
                    m,
                    #[trigger] e.variants@[i],
                    v,
                    path,
                    depth,
                ).len() == 0
            &&& errors.len() > 0 ==> errors.len() == 1 && errors[0].path == path
                && head.is_prefix_of(errors[0].message)
        }),
{
    lemma_failed_variants(m, e.variants@, v, path, depth, e.variants@.len());
    if let Some(attempts) = failed_variants(m, e.variants@, v, path, depth, e.variants@.len()) {
        let head = "value matched no variant of '"@ + e.name@ + "'"@;
        assert((head + attempts).subrange(0, head.len() as int) =~= head);
    }
}

// The limit on nesting.

/// The limit on nesting only ever rejects: what conforms below some rules conforms
/// below fewer of them.
pub proof fn shallower_still_conforms(
    m: IrModule,
    def: TypeDef,
    v: ValueView,
    depth: nat,
    deeper: nat,
)
    requires
        depth <= deeper,
        def_conforms(m, def, v, deeper),
    ensures
        def_conforms(m, def, v, depth),
    decreases MAX_DEPTH - deeper, 0int, m,
{
    let d = depth + 1;
    let e = deeper + 1;
    match def {
        TypeDef::Struct(s) => {
            let inner = payload(s.tagged, v)->Ok_0;
            assert(struct_conforms(m, s, inner, e));
            let entries = inner->Mapping_0;
            assert forall|i: int| 0 <= i < s.fields@.len() implies field_conforms(
                m,
                #[trigger] s.fields@[i],
                entries,
                d,
            ) by {
                let field = s.fields@[i];
                assert(field_conforms(m, field, entries, e));
                if let Some(value) = field_value(field.key, entries) {
                    lemma_shallower_ref(m, field.ty, value, d, e);
                    lemma_shallower_constraints(m, field.constraints@, field.ty, value, d, e);
                }
            }
            assert(struct_conforms(m, s, inner, d));
        },
        TypeDef::Enum(n) => {
            let inner = payload(n.tagged, v)->Ok_0;
            assert(enum_conforms(m, n, inner, e));
            let i = choose|i: int|
                0 <= i < n.variants@.len() && variant_conforms(
                    m,
                    #[trigger] n.variants@[i],
                    inner,
                    e,
                );
            let variant = n.variants@[i];
            assert(variant_conforms(m, variant, inner, e));
            lemma_shallower_ref(m, variant.ty, inner, d, e);
            lemma_shallower_constraints(m, variant.constraints@, variant.ty, inner, d, e);
            assert(variant_conforms(m, n.variants@[i], inner, d));
            assert(enum_conforms(m, n, inner, d));
        },
        TypeDef::Array(a) => {
            let inner = payload(a.tagged, v)->Ok_0;
            assert(array_conforms(m, a, inner, e));
            lemma_shallower_items(m, a.element, inner->Array_0, d, e);
            assert(array_conforms(m, a, inner, d));
        },
        TypeDef::Table(_) => {},
        TypeDef::Alias(a) => {
            let inner = payload(a.tagged, v)->Ok_0;
            lemma_shallower_ref(m, a.ty, inner, d, e);
            lemma_shallower_constraints(m, a.constraints@, a.ty, inner, d, e);
        },
    }
}

proof fn lemma_shallower_ref(m: IrModule, ty: TypeRef, v: ValueView, depth: nat, deeper: nat)
    requires
        depth <= deeper,
        ref_conforms(m, ty, v, deeper),
    ensures
        ref_conforms(m, ty, v, depth),
    decreases MAX_DEPTH - deeper, 1int, ty,
{
    match ty {
        TypeRef::Primitive(_) => {},
        TypeRef::Named(name) => {
            shallower_still_conforms(m, m.lookup(name@)->0, v, depth, deeper);
        },
        TypeRef::Choice(variants) => {
            let i = choose|i: int|
                0 <= i < variants@.len() && ref_conforms(m, #[trigger] variants@[i], v, deeper);
            lemma_shallower_ref(m, variants@[i], v, depth, deeper);
        },
        TypeRef::Tagged(tag, inner) => {
            lemma_shallower_ref(m, *inner, payload(Some(tag), v)->Ok_0, depth, deeper);
        },
    }
}

proof fn lemma_shallower_items(
    m: IrModule,
    ty: TypeRef,
    items: Seq<ValueView>,
    depth: nat,
    deeper: nat,
)
    requires
        depth <= deeper,
        items_conform(m, ty, items, deeper),
    ensures
        items_conform(m, ty, items, depth),
    decreases MAX_DEPTH - deeper, 2int, m,
{
    assert forall|i: int| 0 <= i < items.len() implies ref_conforms(
        m,
        ty,
        #[trigger] items[i],
        depth,
    ) by {
        lemma_shallower_ref(m, ty, items[i], depth, deeper);
    }
}

proof fn lemma_shallower_constraints(
    m: IrModule,
    constraints: Seq<Constraint>,
    ty: TypeRef,
    v: ValueView,
    depth: nat,
    deeper: nat,
)
    requires
        depth <= deeper,
        constraints_hold(m, constraints, ty, v, deeper),
    ensures
        constraints_hold(m, constraints, ty, v, depth),
    decreases MAX_DEPTH - deeper, 3int, m,
{
    let base = base_primitive(m, ty, 0);
    assert forall|i: int| 0 <= i < constraints.len() implies constraint_holds(
        m,
        #[trigger] constraints[i],
        base,
        v,
        depth,
    ) by {
        assert(constraint_holds(m, constraints[i], base, v, deeper));
        match constraints[i] {
            Constraint::CborEmbedded(inner) => {
                let bytes = carried_bytes(v, encoded_bytes(v))->Ok_0;
                lemma_shallower_ref(m, *inner, embedded_item(bytes)->Ok_0, depth, deeper);
            },
            Constraint::CborSeq(inner) => {
                let bytes = carried_bytes(v, encoded_bytes(v))->Ok_0;
                lemma_shallower_items(m, *inner, embedded_items(bytes).0, depth, deeper);
            },
            _ => {},
        }
    }
}

/// A rule that is an alias of itself ends at the limit and accepts nothing.
pub proof fn circular_alias_accepts_nothing(
    m: IrModule,
    name: Seq<char>,
    alias: AliasDef,
    own_name: String,
    v: ValueView,
)
    requires
        m.lookup(name) == Some(TypeDef::Alias(alias)),
        alias.ty == TypeRef::Named(own_name),
        own_name@ == name,
    ensures
        !document_conforms(m, name, v),
{
    lemma_circular_alias(m, name, alias, own_name, v, 0);
}

proof fn lemma_circular_alias(
    m: IrModule,
    name: Seq<char>,
    alias: AliasDef,
    own_name: String,
    v: ValueView,
    depth: nat,
)
    requires
        m.lookup(name) == Some(TypeDef::Alias(alias)),
        alias.ty == TypeRef::Named(own_name),
        own_name@ == name,
    ensures
        !def_conforms(m, TypeDef::Alias(alias), v, depth),
    decreases MAX_DEPTH - depth,
{
    if depth < MAX_DEPTH {
        if let Ok(inner) = payload(alias.tagged, v) {
            lemma_circular_alias(m, name, alias, own_name, inner, depth + 1);
            assert(!ref_conforms(m, alias.ty, inner, depth + 1));
        }
    }
}

/// Checking a value against a bare alias of itself is answered with one failure: the
/// limit on nesting.
pub proof fn circular_alias_is_answered_once(
    m: IrModule,
    name: Seq<char>,
    alias: AliasDef,
    own_name: String,
    v: ValueView,
)
    requires
        name.len() > 0,
        m.lookup(name) == Some(TypeDef::Alias(alias)),
        alias.ty == TypeRef::Named(own_name),
        own_name@ == name,
        alias.constraints@.len() == 0,
        alias.tagged is None || v !is Tag,
    ensures
        document_errors(m, name, v) == report(seq![], too_deep()),
{
    lemma_circular_alias_report(m, name, alias, own_name, v, seq![], 0);
}

proof fn lemma_circular_alias_report(
    m: IrModule,
    name: Seq<char>,
    alias: AliasDef,
    own_name: String,
    v: ValueView,
    path: Seq<SegView>,
    depth: nat,
)
    requires
        m.lookup(name) == Some(TypeDef::Alias(alias)),
        alias.ty == TypeRef::Named(own_name),
        own_name@ == name,
        alias.constraints@.len() == 0,
        alias.tagged is None || v !is Tag,
    ensures
        def_errors(m, TypeDef::Alias(alias), v, path, depth) == report(path, too_deep()),
    decreases MAX_DEPTH - depth,
{
    if depth < MAX_DEPTH {
        lemma_circular_alias_report(m, name, alias, own_name, v, path, depth + 1);
        assert(ref_errors(m, alias.ty, v, path, depth + 1) == report(path, too_deep()));
        assert(constraints_errors(m, alias.constraints@, alias.ty, v, path, depth + 1, 0)
            =~= seq![]);
        assert(report(path, too_deep()) + Seq::<ErrorView>::empty() =~= report(path, too_deep()));
    }
}

// Tags.

/// A rule without its tag.
pub open spec fn untagged(def: TypeDef) -> TypeDef {
    match def {
        TypeDef::Struct(s) => TypeDef::Struct(StructDef { tagged: None, ..s }),
        TypeDef::Enum(e) => TypeDef::Enum(EnumDef { tagged: None, ..e }),
        TypeDef::Array(a) => TypeDef::Array(ArrayDef { tagged: None, ..a }),
        TypeDef::Table(t) => TypeDef::Table(t),
        TypeDef::Alias(a) => TypeDef::Alias(AliasDef { tagged: None, ..a }),
    }
}

/// The tag that a rule expects.
pub open spec fn expected_tag(def: TypeDef) -> Option<CborTag> {
    match def {
        TypeDef::Struct(s) => s.tagged,
        TypeDef::Enum(e) => e.tagged,
        TypeDef::Array(a) => a.tagged,
        TypeDef::Table(_) => None,
        TypeDef::Alias(a) => a.tagged,
    }
}

/// A value without a tag, as every value from JSON is, is checked against a tagged
/// rule as if the rule had no tag.
pub proof fn untagged_value_degrades(
    m: IrModule,
    def: TypeDef,
    v: ValueView,
    path: Seq<SegView>,
    depth: nat,
)
    requires
        v !is Tag,
    ensures
        def_errors(m, def, v, path, depth) == def_errors(m, untagged(def), v, path, depth),
{
    if depth < MAX_DEPTH {
        match def {
            TypeDef::Struct(s) => {
                let plain = StructDef { tagged: None, ..s };
                assert(struct_errors(m, s, v, path, depth + 1) == struct_errors(
                    m,
                    plain,
                    v,
                    path,
                    depth + 1,
                ));
            },
            TypeDef::Enum(e) => {
                let plain = EnumDef { tagged: None, ..e };
                assert(enum_errors(m, e, v, path, depth + 1) == enum_errors(
                    m,
                    plain,
                    v,
                    path,
                    depth + 1,
                ));
            },
            TypeDef::Array(a) => {
                let plain = ArrayDef { tagged: None, ..a };
                assert(array_errors(m, a, v, path, depth + 1) == array_errors(
                    m,
                    plain,
                    v,
                    path,
                    depth + 1,
                ));
            },
            _ => {},
        }
    }
}

/// A value without a tag is checked against a tagged type as if the type had no tag.
pub proof fn untagged_value_degrades_in_place(
    m: IrModule,
    tag: CborTag,
    ty: TypeRef,
    v: ValueView,
    path: Seq<SegView>,
    depth: nat,
)
    requires
        v !is Tag,
    ensures
        ref_errors(m, TypeRef::Tagged(tag, Box::new(ty)), v, path, depth) == ref_errors(
            m,
            ty,
            v,
            path,
            depth,
        ),
{
    reveal_with_fuel(ref_errors, 2);
}

/// A value with the tag that a rule expects is checked as the tagged item is against
/// the rule without its tag.
pub proof fn expected_tag_is_taken_off(
    m: IrModule,
    def: TypeDef,
    tag: CborTag,
    item: ValueView,
    path: Seq<SegView>,
    depth: nat,
)
    requires
        expected_tag(def) == Some(tag),
    ensures
        def_errors(m, def, ValueView::Tag(tag.0, Box::new(item)), path, depth) == def_errors(
            m,
            untagged(def),
            item,
            path,
            depth,
        ),
{
    if depth < MAX_DEPTH {
        match def {
            TypeDef::Struct(s) => {
                let plain = StructDef { tagged: None, ..s };
                assert(struct_errors(m, s, item, path, depth + 1) == struct_errors(
                    m,
                    plain,
                    item,
                    path,
                    depth + 1,
                ));
            },
            TypeDef::Enum(e) => {
                let plain = EnumDef { tagged: None, ..e };
                assert(enum_errors(m, e, item, path, depth + 1) == enum_errors(
                    m,
                    plain,
                    item,
                    path,
                    depth + 1,
                ));
            },
            TypeDef::Array(a) => {
                let plain = ArrayDef { tagged: None, ..a };
                assert(array_errors(m, a, item, path, depth + 1) == array_errors(
                    m,
                    plain,
                    item,
                    path,
                    depth + 1,
                ));
            },
            _ => {},
        }
    }
}

/// Under the tag that a type expects, what counts is the tagged item.
pub proof fn expected_tag_is_taken_off_in_place(
    m: IrModule,
    tag: CborTag,
    ty: TypeRef,
    item: ValueView,
    path: Seq<SegView>,
    depth: nat,
)
    ensures
        ref_errors(
            m,
            TypeRef::Tagged(tag, Box::new(ty)),
            ValueView::Tag(tag.0, Box::new(item)),
            path,
            depth,
        ) == ref_errors(m, ty, item, path, depth),
{
    reveal_with_fuel(ref_errors, 2);
}

/// Another tag than the expected one is rejected, with one failure that names both
/// (the limit on nesting, where that comes first).
pub proof fn unexpected_tag_is_rejected(
    m: IrModule,
    def: TypeDef,
    tag: CborTag,
    number: u64,
    item: ValueView,
    path: Seq<SegView>,
    depth: nat,
)
    requires
        expected_tag(def) == Some(tag),
        number != tag.0,
    ensures
        def_errors(m, def, ValueView::Tag(number, Box::new(item)), path, depth) == report(
            path,
            if depth >= MAX_DEPTH {
                too_deep()
            } else {
                "expected CBOR tag "@ + decimal(tag.0 as int) + ", found tag "@ + decimal(
                    number as int,
                )
            },
        ),
{
}

/// Another tag than the one that a type expects is rejected, with one failure that
/// names both.
pub proof fn unexpected_tag_is_rejected_in_place(
    m: IrModule,
    tag: CborTag,
    ty: TypeRef,
    number: u64,
    item: ValueView,
    path: Seq<SegView>,
    depth: nat,
)
    requires
        number != tag.0,
    ensures
        ref_errors(
            m,
            TypeRef::Tagged(tag, Box::new(ty)),
            ValueView::Tag(number, Box::new(item)),
            path,
            depth,
        ) == report(
            path,
            "expected CBOR tag "@ + decimal(tag.0 as int) + ", found tag "@ + decimal(
                number as int,
            ),
        ),
{
}

// The two formats.

/// A JSON document and a CBOR item hold the same data.
pub open spec fn same_data(tree: JsonTree, item: CborValue) -> bool
    decreases tree,
{
    match (tree, item) {
        (JsonTree::Null, CborValue::Null) => true,
        (JsonTree::Bool(a), CborValue::Bool(b)) => a == b,
        (
            JsonTree::Number { unsigned, signed, double },
            CborValue::Integer(integer),
        ) => match (unsigned, signed) {
            (Some(n), _) => cbor_integer(integer) == n,
            (None, Some(n)) => n < 0 && cbor_integer(integer) == n,
            (None, None) => false,
        },
        (JsonTree::Number { unsigned, signed, double }, CborValue::Float(float)) => unsigned is None
            && signed is None && double == Some(float.to_bits_spec()),
        (JsonTree::Text(a), CborValue::Text(b)) => a == b@,
        (JsonTree::Array(trees), CborValue::Array(items)) => {
            &&& trees.len() == items@.len()
            &&& forall|i: int| 0 <= i < trees.len() ==> same_data(#[trigger] trees[i], items@[i])
        },
        (JsonTree::Object(members), CborValue::Map(entries)) => {
            &&& members.len() == entries@.len()
            &&& forall|i: int|
                0 <= i < members.len() ==> {
                    &&& entries@[i].0 matches CborValue::Text(key)
                    &&& key@ == (#[trigger] members[i]).0
                    &&& same_data(members[i].1, entries@[i].1)
                }
        },
        _ => false,
    }
}

proof fn lemma_same_data(tree: JsonTree, item: CborValue)
    requires
        same_data(tree, item),
    ensures
        json_view(tree) == cbor_view(item),
    decreases tree,
{
    match (tree, item) {
        (JsonTree::Array(trees), CborValue::Array(items)) => {
            assert forall|i: int| 0 <= i < trees.len() implies json_view(#[trigger] trees[i])
                == cbor_view(items@[i]) by {
                lemma_same_data(trees[i], items@[i]);
            }
            assert(json_view(tree)->Array_0 =~= cbor_items_view(items));
        },
        (JsonTree::Object(members), CborValue::Map(entries)) => {
            let got = json_view(tree)->Mapping_0;
            let wanted = cbor_entries_view(entries);
            assert forall|i: int| 0 <= i < members.len() implies #[trigger] got[i] == wanted[i] by {
                assert(same_data(members[i].1, entries@[i].1));
                lemma_same_data(members[i].1, entries@[i].1);
            }
            assert(got =~= wanted);
        },
        _ => {},
    }
}

/// A JSON document and a CBOR item that hold the same data are one value, so every
/// schema gives both the same report.
pub proof fn formats_validate_identically(
    m: IrModule,
    name: Seq<char>,
    tree: JsonTree,
    item: CborValue,
)
    requires
        same_data(tree, item),
    ensures
        json_view(tree) == cbor_view(item),
        document_errors(m, name, json_view(tree)) == document_errors(m, name, cbor_view(item)),
{
    lemma_same_data(tree, item);
}

/// No tag and no byte string occurs in a value, and its map keys are texts.
pub open spec fn within_json(v: ValueView) -> bool
    decreases v,
{
    match v {
        ValueView::Tag(_, _) | ValueView::Bytes(_) => false,
        ValueView::Array(items) => forall|i: int|
            0 <= i < items.len() ==> within_json(#[trigger] items[i]),
        ValueView::Mapping(entries) => forall|i: int|
            0 <= i < entries.len() ==> (#[trigger] entries[i]).0 is Text && within_json(
                entries[i].1,
            ),
        _ => true,
    }
}

/// A JSON document gives neither a tag nor a byte string, at any depth, and only
/// texts as map keys.
pub proof fn json_has_neither_tags_nor_bytes(tree: JsonTree)
    ensures
        within_json(json_view(tree)),
    decreases tree,
{
    let v = json_view(tree);
    match tree {
        JsonTree::Array(trees) => {
            assert forall|i: int| 0 <= i < trees.len() implies within_json(
                #[trigger] v->Array_0[i],
            ) by {
                json_has_neither_tags_nor_bytes(trees[i]);
            }
        },
        JsonTree::Object(members) => {
            assert forall|i: int| 0 <= i < members.len() implies (#[trigger] v->Mapping_0[i]).0
                is Text && within_json(v->Mapping_0[i].1) by {
                json_has_neither_tags_nor_bytes(members[i].1);
            }
        },
        _ => {},
    }
}

/// An integer within 64 bits keeps its value.
pub proof fn integers_are_kept(n: int)
    requires
        i64::MIN <= n <= u64::MAX,
    ensures
        integer_of(integer_view(n)) == Some(n),
{
}

/// In the value of a CBOR item, every `Int` at any depth is negative.
pub proof fn cbor_keeps_signs(item: CborValue)
    ensures
        only_negative_is_signed(cbor_view(item)),
    decreases item,
{
    match item {
        CborValue::Tag(_, inner) => {
            cbor_keeps_signs(*inner);
        },
        CborValue::Array(items) => {
            let view = cbor_items_view(items);
            assert forall|i: int| 0 <= i < view.len() implies only_negative_is_signed(
                #[trigger] view[i],
            ) by {
                assert(decreases_to!(items => items@[i]));
                cbor_keeps_signs(items@[i]);
            }
        },
        CborValue::Map(entries) => {
            let view = cbor_entries_view(entries);
            assert forall|i: int| 0 <= i < view.len() implies only_negative_is_signed(
                (#[trigger] view[i]).0,
            ) && only_negative_is_signed(view[i].1) by {
                assert(decreases_to!(entries => entries@[i].0));
                assert(decreases_to!(entries => entries@[i].1));
                cbor_keeps_signs(entries@[i].0);
                cbor_keeps_signs(entries@[i].1);
            }
        },
        _ => {},
    }
}

/// Where every `Int` is negative, no integer has two representations.
pub proof fn integers_have_one_form(a: ValueView, b: ValueView)
    requires
        only_negative_is_signed(a),
        only_negative_is_signed(b),
        integer_of(a) is Some,
        integer_of(a) == integer_of(b),
    ensures
        a == b,
{
}

/// Keys and literals see the integer, not whether it is held signed or unsigned.
pub proof fn signedness_is_irrelevant(
    key: FieldKey,
    literal: LiteralValue,
    n: u64,
    encoded: Option<Seq<u8>>,
)
    requires
        n <= i64::MAX,
    ensures
        is_key(key, ValueView::Uint(n)) == is_key(key, ValueView::Int(n as i64)),
        equals_literal(literal, ValueView::Uint(n), encoded) == equals_literal(
            literal,
            ValueView::Int(n as i64),
            encoded,
        ),
{
}

/// A constraint that is about bytes.
pub open spec fn concerns_bytes(constraint: Constraint) -> bool {
    match constraint {
        Constraint::SizeExact(_) | Constraint::SizeRange { .. } => true,
        Constraint::Eq(LiteralValue::Bytes(_)) | Constraint::Ne(LiteralValue::Bytes(_)) => true,
        Constraint::CborEmbedded(_) | Constraint::CborSeq(_) => true,
        _ => false,
    }
}

/// A text that encodes bytes in base64url stands for those bytes: both are a `bstr`,
/// and a constraint about bytes holds of both or of none.
pub proof fn encoded_text_stands_for_its_bytes(
    m: IrModule,
    constraint: Constraint,
    text: Seq<char>,
    bytes: Seq<u8>,
    depth: nat,
)
    requires
        base64url(text) == Some(bytes),
        concerns_bytes(constraint),
    ensures
        is_of(Primitive::Bstr, ValueView::Text(text), base64url(text)),
        is_of(Primitive::Bstr, ValueView::Bytes(bytes), None),
        constraint_holds(m, constraint, Some(Primitive::Bstr), ValueView::Text(text), depth)
            == constraint_holds(
            m,
            constraint,
            Some(Primitive::Bstr),
            ValueView::Bytes(bytes),
            depth,
        ),
{
}

// Fields, elements and ranges.

/// A field is found exactly where some entry has its key.
pub proof fn present_field_is_found(key: FieldKey, entries: Seq<(ValueView, ValueView)>)
    ensures
        field_value(key, entries) is Some <==> exists|i: int|
            0 <= i < entries.len() && is_key(key, (#[trigger] entries[i]).0),
{
    if exists|i: int| 0 <= i < entries.len() && is_key(key, (#[trigger] entries[i]).0) {
        let i = choose|i: int| 0 <= i < entries.len() && is_key(key, (#[trigger] entries[i]).0);
        lemma_first_entry(key, entries, i);
    }
}

proof fn lemma_first_entry(key: FieldKey, entries: Seq<(ValueView, ValueView)>, i: int)
    requires
        0 <= i < entries.len(),
        is_key(key, entries[i].0),
    ensures
        exists|k: int| entry_at(key, entries, k),
    decreases i,
{
    if exists|j: int| 0 <= j < i && is_key(key, (#[trigger] entries[j]).0) {
        let j = choose|j: int| 0 <= j < i && is_key(key, (#[trigger] entries[j]).0);
        lemma_first_entry(key, entries, j);
    } else {
        assert(entry_at(key, entries, i));
    }
}

proof fn lemma_same_members(
    a: Seq<(ValueView, ValueView)>,
    b: Seq<(ValueView, ValueView)>,
    i: int,
) -> (j: int)
    requires
        a.to_multiset() == b.to_multiset(),
        0 <= i < a.len(),
    ensures
        0 <= j < b.len(),
        b[j] == a[i],
{
    a.to_multiset_ensures();
    b.to_multiset_ensures();
    assert(a.contains(a[i]));
    assert(a.to_multiset().count(a[i]) > 0);
    assert(b.to_multiset().count(a[i]) > 0);
    choose|j: int| 0 <= j < b.len() && b[j] == a[i]
}

/// The entries that match a field's key agree in their value, so that it does not
/// matter which of them comes first.
pub open spec fn keys_are_unambiguous(
    fields: Seq<FieldDef>,
    entries: Seq<(ValueView, ValueView)>,
) -> bool {
    forall|k: int, i: int, j: int|
        #![trigger fields[k], entries[i], entries[j]]
        0 <= k < fields.len() && 0 <= i < entries.len() && 0 <= j < entries.len() && is_key(
            fields[k].key,
            entries[i].0,
        ) && is_key(fields[k].key, entries[j].0) ==> entries[i].1 == entries[j].1
}

proof fn lemma_value_in_any_order(
    fields: Seq<FieldDef>,
    k: int,
    a: Seq<(ValueView, ValueView)>,
    b: Seq<(ValueView, ValueView)>,
)
    requires
        0 <= k < fields.len(),
        a.to_multiset() == b.to_multiset(),
        keys_are_unambiguous(fields, a),
    ensures
        field_value(fields[k].key, a) == field_value(fields[k].key, b),
{
    let key = fields[k].key;
    present_field_is_found(key, a);
    present_field_is_found(key, b);
    if field_value(key, a) is Some {
        let i = choose|i: int| entry_at(key, a, i);
        let j = lemma_same_members(a, b, i);
        assert(is_key(key, b[j].0));
    }
    if field_value(key, b) is Some {
        let j = choose|j: int| entry_at(key, b, j);
        let back = lemma_same_members(b, a, j);
        assert(is_key(key, a[back].0));
        let i = choose|i: int| entry_at(key, a, i);
        assert(fields[k].key == key);
        assert(a[i].1 == a[back].1);
    }
}

proof fn lemma_fields_in_any_order(
    m: IrModule,
    fields: Seq<FieldDef>,
    a: Seq<(ValueView, ValueView)>,
    b: Seq<(ValueView, ValueView)>,
    path: Seq<SegView>,
    depth: nat,
    n: nat,
)
    requires
        n <= fields.len(),
        a.to_multiset() == b.to_multiset(),
        keys_are_unambiguous(fields, a),
    ensures
        fields_errors(m, fields, a, path, depth, n) == fields_errors(m, fields, b, path, depth, n),
    decreases n,
{
    if n > 0 {
        lemma_fields_in_any_order(m, fields, a, b, path, depth, (n - 1) as nat);
        lemma_value_in_any_order(fields, n - 1, a, b);
        assert(field_errors(m, fields[n - 1], a, path, depth) == field_errors(
            m,
            fields[n - 1],
            b,
            path,
            depth,
        ));
    }
}

/// What is reported for the key of one entry.
spec fn unknown_error(
    fields: Seq<FieldDef>,
    entry: (ValueView, ValueView),
    path: Seq<SegView>,
) -> Seq<ErrorView> {
    if is_known_key(fields, entry.0) {
        seq![]
    } else {
        report(path, "unknown field "@ + described_key(entry.0))
    }
}

proof fn lemma_unknown_step(
    fields: Seq<FieldDef>,
    entries: Seq<(ValueView, ValueView)>,
    path: Seq<SegView>,
    n: nat,
)
    requires
        0 < n <= entries.len(),
    ensures
        unknown_errors(fields, entries, path, n).to_multiset() == unknown_errors(
            fields,
            entries,
            path,
            (n - 1) as nat,
        ).to_multiset().add(unknown_error(fields, entries[n - 1], path).to_multiset()),
{
    let before = unknown_errors(fields, entries, path, (n - 1) as nat);
    let last = unknown_error(fields, entries[n - 1], path);
    assert(unknown_errors(fields, entries, path, n) =~= before + last);
    lemma_multiset_commutative(before, last);
}

proof fn lemma_unknown_prefix(
    fields: Seq<FieldDef>,
    a: Seq<(ValueView, ValueView)>,
    b: Seq<(ValueView, ValueView)>,
    path: Seq<SegView>,
    n: nat,
)
    requires
        n <= a.len(),
        n <= b.len(),
        forall|i: int| 0 <= i < n ==> a[i] == b[i],
    ensures
        unknown_errors(fields, a, path, n) == unknown_errors(fields, b, path, n),
    decreases n,
{
    if n > 0 {
        lemma_unknown_prefix(fields, a, b, path, (n - 1) as nat);
    }
}

proof fn lemma_unknown_without(
    fields: Seq<FieldDef>,
    entries: Seq<(ValueView, ValueView)>,
    path: Seq<SegView>,
    j: int,
    n: nat,
)
    requires
        0 <= j < n <= entries.len(),
    ensures
        unknown_errors(fields, entries, path, n).to_multiset() == unknown_errors(
            fields,
            entries.remove(j),
            path,
            (n - 1) as nat,
        ).to_multiset().add(unknown_error(fields, entries[j], path).to_multiset()),
    decreases n,
{
    let fewer = entries.remove(j);
    lemma_unknown_step(fields, entries, path, n);
    if n == j + 1 {
        lemma_unknown_prefix(fields, entries, fewer, path, (n - 1) as nat);
    } else {
        lemma_unknown_without(fields, entries, path, j, (n - 1) as nat);
        lemma_unknown_step(fields, fewer, path, (n - 1) as nat);
        assert(fewer[n - 2] == entries[n - 1]);
        let rest = unknown_errors(fields, fewer, path, (n - 2) as nat).to_multiset();
        let here = unknown_error(fields, entries[j], path).to_multiset();
        let last = unknown_error(fields, entries[n - 1], path).to_multiset();
        assert(rest.add(here).add(last) =~= rest.add(last).add(here));
    }
}

proof fn lemma_unknown_in_any_order(
    fields: Seq<FieldDef>,
    a: Seq<(ValueView, ValueView)>,
    b: Seq<(ValueView, ValueView)>,
    path: Seq<SegView>,
)
    requires
        a.to_multiset() == b.to_multiset(),
    ensures
        unknown_errors(fields, a, path, a.len()).to_multiset() == unknown_errors(
            fields,
            b,
            path,
            b.len(),
        ).to_multiset(),
    decreases a.len(),
{
    a.to_multiset_ensures();
    b.to_multiset_ensures();
    assert(a.len() == b.len());
    if a.len() > 0 {
        let i = a.len() - 1;
        let j = lemma_same_members(a, b, i);
        assert(a.remove(i).to_multiset() =~= a.to_multiset().remove(a[i]));
        assert(b.remove(j).to_multiset() =~= b.to_multiset().remove(b[j]));
        lemma_unknown_in_any_order(fields, a.remove(i), b.remove(j), path);
        lemma_unknown_without(fields, a, path, i, a.len());
        lemma_unknown_without(fields, b, path, j, b.len());
    }
}

/// The order of the entries of a map does not matter: the same entries in another
/// order give a struct the same failures, in whatever order, and so it accepts both or
/// neither. Entries that match one field's key have to agree in their value, since the
/// first of them is the one that counts.
pub proof fn entry_order_is_irrelevant(
    m: IrModule,
    s: StructDef,
    a: Seq<(ValueView, ValueView)>,
    b: Seq<(ValueView, ValueView)>,
    path: Seq<SegView>,
    depth: nat,
)
    requires
        a.to_multiset() == b.to_multiset(),
        keys_are_unambiguous(s.fields@, a),
    ensures
        ({
            let of_a = struct_errors(m, s, ValueView::Mapping(a), path, depth);
            let of_b = struct_errors(m, s, ValueView::Mapping(b), path, depth);
            &&& of_a.to_multiset() == of_b.to_multiset()
            &&& of_a.len() == 0 <==> of_b.len() == 0
        }),
{
    lemma_fields_in_any_order(m, s.fields@, a, b, path, depth, s.fields@.len());
    lemma_unknown_in_any_order(s.fields@, a, b, path);
    let fields = fields_errors(m, s.fields@, a, path, depth, s.fields@.len());
    let of_a = unknown_errors(s.fields@, a, path, a.len());
    let of_b = unknown_errors(s.fields@, b, path, b.len());
    lemma_multiset_commutative(fields, of_a);
    lemma_multiset_commutative(fields, of_b);
    (fields + of_a).to_multiset_ensures();
    (fields + of_b).to_multiset_ensures();
}

/// An array is checked as a whole: first the number of its elements, then every
/// element in order, each at its index, whatever failed before it.
pub proof fn array_checks_every_item(
    m: IrModule,
    a: ArrayDef,
    items: Seq<ValueView>,
    path: Seq<SegView>,
    depth: nat,
)
    ensures
        array_errors(m, a, ValueView::Array(items), path, depth) == report_any(
            path,
            cardinality_failure(a.occurrence, items.len(), a.name@),
        ) + Seq::new(
            items.len(),
            |i: int|
                ref_errors(m, a.element, items[i], path.push(SegView::Index(i as nat)), depth),
        ).flatten(),
{
    lemma_items_flatten(m, a.element, items, path, depth, items.len());
}

proof fn lemma_items_flatten(
    m: IrModule,
    ty: TypeRef,
    items: Seq<ValueView>,
    path: Seq<SegView>,
    depth: nat,
    n: nat,
)
    ensures
        items_errors(m, ty, items, path, depth, n) == Seq::new(
            n,
            |i: int| ref_errors(m, ty, items[i], path.push(SegView::Index(i as nat)), depth),
        ).flatten(),
    decreases n,
{
    let each = |i: int| ref_errors(m, ty, items[i], path.push(SegView::Index(i as nat)), depth);
    if n > 0 {
        lemma_items_flatten(m, ty, items, path, depth, (n - 1) as nat);
        let before = Seq::new((n - 1) as nat, each);
        before.lemma_flatten_push(each(n - 1));
        assert(before.push(each(n - 1)) =~= Seq::new(n, each));
    } else {
        assert(Seq::new(n, each).flatten() =~= seq![]);
    }
}

/// The lower bound of a range belongs to it, whatever its upper bound does; the upper
/// bound belongs to it exactly where it is inclusive.
pub proof fn only_the_upper_bound_may_be_excluded(
    v: ValueView,
    min: Option<int>,
    max: Option<int>,
    inclusive: bool,
)
    ensures
        whole_of(v) is Some && whole_of(v) == min && (max matches Some(high) ==> min->0 < high)
            ==> in_range(v, min, max, inclusive),
        whole_of(v) is Some && whole_of(v) == max && (min matches Some(low) ==> low <= max->0)
            ==> in_range(v, min, max, inclusive) == inclusive,
{
}

// What does not restrict anything.

/// `any` accepts every value.
pub proof fn any_accepts_everything(m: IrModule, v: ValueView, path: Seq<SegView>, depth: nat)
    ensures
        ref_errors(m, TypeRef::Primitive(Primitive::Any), v, path, depth).len() == 0,
{
}

/// `undefined` and `null` accept the same values.
pub proof fn undefined_is_null(v: ValueView, encoded: Option<Seq<u8>>)
    ensures
        is_of(Primitive::Undefined, v, encoded) == is_of(Primitive::Null, v, encoded),
{
}

/// A default among the constraints changes nothing.
pub proof fn default_is_informational(
    m: IrModule,
    constraints: Seq<Constraint>,
    literal: LiteralValue,
    at: int,
    ty: TypeRef,
    v: ValueView,
    path: Seq<SegView>,
    depth: nat,
)
    requires
        0 <= at <= constraints.len(),
    ensures
        ({
            let more = constraints.insert(at, Constraint::Default(literal));
            constraints_errors(m, more, ty, v, path, depth, more.len()) == constraints_errors(
                m,
                constraints,
                ty,
                v,
                path,
                depth,
                constraints.len(),
            )
        }),
{
    lemma_default_prefix(m, constraints, literal, at, ty, v, path, depth, constraints.len());
}

proof fn lemma_default_prefix(
    m: IrModule,
    constraints: Seq<Constraint>,
    literal: LiteralValue,
    at: int,
    ty: TypeRef,
    v: ValueView,
    path: Seq<SegView>,
    depth: nat,
    n: nat,
)
    requires
        0 <= at <= n <= constraints.len(),
    ensures
        constraints_errors(
            m,
            constraints.insert(at, Constraint::Default(literal)),
            ty,
            v,
            path,
            depth,
            n + 1,
        ) == constraints_errors(m, constraints, ty, v, path, depth, n),
    decreases n,
{
    let more = constraints.insert(at, Constraint::Default(literal));
    if n == at {
        lemma_same_prefix(m, constraints, more, ty, v, path, depth, n);
        assert(more[n as int] == Constraint::Default(literal));
        let before = constraints_errors(m, more, ty, v, path, depth, n);
        assert(constraint_errors(
            m,
            more[n as int],
            base_primitive(m, ty, 0),
            v,
            path,
            depth,
        ) =~= seq![]);
        assert(before + Seq::<ErrorView>::empty() =~= before);
    } else {
        lemma_default_prefix(m, constraints, literal, at, ty, v, path, depth, (n - 1) as nat);
        assert(more[n as int] == constraints[n - 1]);
    }
}

proof fn lemma_same_prefix(
    m: IrModule,
    a: Seq<Constraint>,
    b: Seq<Constraint>,
    ty: TypeRef,
    v: ValueView,
    path: Seq<SegView>,
    depth: nat,
    n: nat,
)
    requires
        n <= a.len(),
        n <= b.len(),
        forall|i: int| 0 <= i < n ==> a[i] == b[i],
    ensures
        constraints_errors(m, a, ty, v, path, depth, n) == constraints_errors(
            m,
            b,
            ty,
            v,
            path,
            depth,
            n,
        ),
    decreases n,
{
    if n > 0 {
        lemma_same_prefix(m, a, b, ty, v, path, depth, (n - 1) as nat);
    }
}

} // verus!
