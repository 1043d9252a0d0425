//! How the reports on the parts of a schema make up the report on the whole: laws on
//! structs, arrays, enums, choices, aliases, names, embedded items and documents.

use vstd::prelude::*;

use crate::base64url::{encoding, encoding_reads_back};
use crate::cbor::cbor_read;
use crate::conformance::{
    constraint_holds, constraints_report_is_empty_iff_holding, ref_conforms,
    type_report_is_empty_iff_conforming,
};
use crate::error::{ErrorView, SegView};
use crate::ir::{
    AliasDef, ArrayDef, Constraint, EnumDef, EnumVariant, FieldDef, FieldKey, IrModule, Primitive,
    StructDef, TableDef, TypeDef, TypeRef,
};
use crate::meaning::{
    key_is_one_text_or_integer, primitive_goes_by_kind, the_first_of_a_name_counts,
    the_limit_is_named,
};
use crate::rules::{
    array_errors, base_primitive, constraint_errors, constraints_errors, def_errors, described_key,
    document_errors, embedded_items, encoded_bytes, entry_at, enum_errors, failed_alternatives,
    failed_variants, field_errors, fields_errors, is_key, items_errors, kind_name, payload,
    ref_errors, report, sequence_errors, struct_errors, unknown_errors, variant_errors,
};
use crate::text::decimal;
use crate::value::ValueView;

verus! {

// Documents and names.

/// A document is checked against the first rule of the name, as the root, below no
/// other rule.
pub proof fn document_is_checked_against_its_rule(
    m: IrModule,
    name: Seq<char>,
    i: int,
    v: ValueView,
)
    requires
        name.len() > 0,
        m.defines_at(name, i),
    ensures
        document_errors(m, name, v) == def_errors(m, m.types@[i], v, seq![], 0),
{
    the_first_of_a_name_counts(m, name, i);
}

/// Without a name, or with one that no rule has, a document is answered with one
/// failure at its root.
pub proof fn document_needs_a_rule(m: IrModule, name: Seq<char>, v: ValueView)
    requires
        name.len() == 0 || forall|i: int|
            0 <= i < m.types@.len() ==> (#[trigger] m.types@[i]).defined_name() != name,
    ensures
        name.len() == 0 ==> document_errors(m, name, v) == report(
            seq![],
            "no root type: the schema defines no rules, or none was given via --type"@,
        ),
        name.len() > 0 ==> document_errors(m, name, v) == report(
            seq![],
            "unknown type '"@ + name + "' (not defined in this schema)"@,
        ),
{
    m.lookup_goes_by_name(name);
}

/// A type that is a name is the first rule of that name, in the same place and below
/// the same rules; a name that no rule has is answered with one failure.
pub proof fn name_stands_for_its_rule(
    m: IrModule,
    name: String,
    i: int,
    v: ValueView,
    path: Seq<SegView>,
    depth: nat,
)
    ensures
        m.defines_at(name@, i) ==> ref_errors(m, TypeRef::Named(name), v, path, depth)
            == def_errors(m, m.types@[i], v, path, depth),
        (forall|k: int|
            0 <= k < m.types@.len() ==> (#[trigger] m.types@[k]).defined_name() != name@)
            ==> ref_errors(m, TypeRef::Named(name), v, path, depth) == report(
            path,
            "internal error: type '"@ + name@ + "' is referenced but not defined"@,
        ),
{
    if m.defines_at(name@, i) {
        the_first_of_a_name_counts(m, name@, i);
    }
    m.lookup_goes_by_name(name@);
}

// Rules.

/// Below 128 rules nothing more is checked.
pub proof fn nothing_is_checked_below_the_limit(
    m: IrModule,
    def: TypeDef,
    v: ValueView,
    path: Seq<SegView>,
    depth: nat,
)
    requires
        depth >= 128,
    ensures
        def_errors(m, def, v, path, depth) == report(
            path,
            "exceeded maximum nesting depth (128)"@,
        ),
{
    the_limit_is_named();
}

/// A rule checks what stands for the value under its tag, one rule further down: an
/// alias its type and then its constraints, a struct, an enum and an array their
/// contents. A table accepts nothing.
pub proof fn rule_checks_what_it_defines(
    m: IrModule,
    s: StructDef,
    e: EnumDef,
    a: ArrayDef,
    alias: AliasDef,
    t: TableDef,
    v: ValueView,
    path: Seq<SegView>,
    depth: nat,
)
    requires
        depth < 128,
    ensures
        payload(s.tagged, v) matches Ok(inner) ==> def_errors(
            m,
            TypeDef::Struct(s),
            v,
            path,
            depth,
        ) == struct_errors(m, s, inner, path, depth + 1),
        payload(e.tagged, v) matches Ok(inner) ==> def_errors(m, TypeDef::Enum(e), v, path, depth)
            == enum_errors(m, e, inner, path, depth + 1),
        payload(a.tagged, v) matches Ok(inner) ==> def_errors(m, TypeDef::Array(a), v, path, depth)
            == array_errors(m, a, inner, path, depth + 1),
        payload(alias.tagged, v) matches Ok(inner) ==> def_errors(
            m,
            TypeDef::Alias(alias),
            v,
            path,
            depth,
        ) == ref_errors(m, alias.ty, inner, path, depth + 1) + constraints_errors(
            m,
            alias.constraints@,
            alias.ty,
            inner,
            path,
            depth + 1,
            alias.constraints@.len(),
        ),
        def_errors(m, TypeDef::Table(t), v, path, depth) == report(
            path,
            "'"@ + t.name@
                + "' uses a CDDL table ({* K => V}), which this validator does not yet support"@,
        ),
{
    the_limit_is_named();
}

/// A document that is checked against an untagged alias is accepted exactly where its
/// value conforms to the alias's type and every constraint holds of it.
pub proof fn alias_accepts_by_type_and_constraints(
    m: IrModule,
    name: Seq<char>,
    i: int,
    alias: AliasDef,
    v: ValueView,
)
    requires
        name.len() > 0,
        m.defines_at(name, i),
        m.types@[i] == TypeDef::Alias(alias),
        alias.tagged is None || v !is Tag,
    ensures
        document_errors(m, name, v).len() == 0 <==> {
            &&& ref_errors(m, alias.ty, v, seq![], 1).len() == 0
            &&& forall|k: int|
                0 <= k < alias.constraints@.len() ==> constraint_holds(
                    m,
                    #[trigger] alias.constraints@[k],
                    base_primitive(m, alias.ty, 0),
                    v,
                    1,
                )
        },
{
    document_is_checked_against_its_rule(m, name, i, v);
    let n = alias.constraints@.len();
    constraints_report_is_empty_iff_holding(m, alias.constraints@, alias.ty, v, seq![], 1);
    assert(payload(alias.tagged, v) == Ok::<ValueView, Seq<char>>(v));
    assert(def_errors(m, m.types@[i], v, seq![], 0) == ref_errors(m, alias.ty, v, seq![], 1)
        + constraints_errors(m, alias.constraints@, alias.ty, v, seq![], 1, n));
}

/// A tagged type checks what stands for the value under its tag, below the same rules.
pub proof fn tagged_type_checks_what_is_tagged(
    m: IrModule,
    tag: crate::ir::CborTag,
    ty: TypeRef,
    v: ValueView,
    path: Seq<SegView>,
    depth: nat,
)
    ensures
        ref_errors(m, TypeRef::Tagged(tag, Box::new(ty)), v, path, depth) == (match payload(
            Some(tag),
            v,
        ) {
            Ok(item) => ref_errors(m, ty, item, path, depth),
            Err(message) => report(path, message),
        }),
{
    reveal_with_fuel(ref_errors, 2);
}

// Structs.

proof fn lemma_fields_flatten(
    m: IrModule,
    fields: Seq<FieldDef>,
    entries: Seq<(ValueView, ValueView)>,
    path: Seq<SegView>,
    depth: nat,
    n: nat,
)
    ensures
        fields_errors(m, fields, entries, path, depth, n) == Seq::new(
            n,
            |i: int| field_errors(m, fields[i], entries, path, depth),
        ).flatten(),
    decreases n,
{
    let each = |i: int| field_errors(m, fields[i], entries, path, depth);
    if n > 0 {
        lemma_fields_flatten(m, fields, entries, path, depth, (n - 1) as nat);
        let before = Seq::new((n - 1) as nat, each);
        before.lemma_flatten_push(each(n - 1));
        assert(before.push(each(n - 1)) =~= Seq::new(n, each));
    } else {
        assert(Seq::new(n, each).flatten() =~= seq![]);
    }
}

/// What is reported for the key of one entry: nothing where it is some field's key.
spec fn unknown_key_report(
    fields: Seq<FieldDef>,
    key: ValueView,
    path: Seq<SegView>,
) -> Seq<ErrorView> {
    if exists|k: int| 0 <= k < fields.len() && is_key((#[trigger] fields[k]).key, key) {
        seq![]
    } else {
        seq![(ErrorView { path, message: "unknown field "@ + described_key(key) })]
    }
}

proof fn lemma_unknown_flatten(
    fields: Seq<FieldDef>,
    entries: Seq<(ValueView, ValueView)>,
    path: Seq<SegView>,
    n: nat,
)
    ensures
        unknown_errors(fields, entries, path, n) == Seq::new(
            n,
            |j: int| unknown_key_report(fields, entries[j].0, path),
        ).flatten(),
    decreases n,
{
    let each = |j: int| unknown_key_report(fields, entries[j].0, path);
    if n > 0 {
        lemma_unknown_flatten(fields, entries, path, (n - 1) as nat);
        let before = Seq::new((n - 1) as nat, each);
        before.lemma_flatten_push(each(n - 1));
        assert(before.push(each(n - 1)) =~= Seq::new(n, each));
        assert(unknown_errors(fields, entries, path, n) =~= unknown_errors(
            fields,
            entries,
            path,
            (n - 1) as nat,
        ) + each(n - 1));
    } else {
        assert(Seq::new(n, each).flatten() =~= seq![]);
    }
}

/// The report on a map is that on every field in order, and behind it every key, in the
/// order of the entries, that is no field's key. What is no map is answered with one
/// failure.
pub proof fn struct_checks_every_field_and_key(
    m: IrModule,
    s: StructDef,
    v: ValueView,
    path: Seq<SegView>,
    depth: nat,
)
    ensures
        v matches ValueView::Mapping(entries) ==> struct_errors(m, s, v, path, depth) == Seq::new(
            s.fields@.len(),
            |i: int| field_errors(m, s.fields@[i], entries, path, depth),
        ).flatten() + Seq::new(
            entries.len(),
            |j: int|
                if exists|k: int|
                    0 <= k < s.fields@.len() && is_key(
                        (#[trigger] s.fields@[k]).key,
                        entries[j].0,
                    ) {
                    Seq::<ErrorView>::empty()
                } else {
                    report(path, "unknown field "@ + described_key(entries[j].0))
                },
        ).flatten(),
        v !is Mapping ==> struct_errors(m, s, v, path, depth) == report(
            path,
            "expected a map for struct '"@ + s.name@ + "', found "@ + kind_name(v),
        ),
{
    if let ValueView::Mapping(entries) = v {
        lemma_fields_flatten(m, s.fields@, entries, path, depth, s.fields@.len());
        lemma_unknown_flatten(s.fields@, entries, path, entries.len());
        assert(Seq::new(
            entries.len(),
            |j: int| unknown_key_report(s.fields@, entries[j].0, path),
        ) =~= Seq::new(
            entries.len(),
            |j: int|
                if exists|k: int|
                    0 <= k < s.fields@.len() && is_key(
                        (#[trigger] s.fields@[k]).key,
                        entries[j].0,
                    ) {
                    Seq::<ErrorView>::empty()
                } else {
                    report(path, "unknown field "@ + described_key(entries[j].0))
                },
        ));
    }
}

/// A field that the map has is checked, required or not and whatever it holds: the
/// value of the first entry with its key against its type, then against its
/// constraints, below the field.
pub proof fn present_field_is_checked(
    m: IrModule,
    field: FieldDef,
    entries: Seq<(ValueView, ValueView)>,
    i: int,
    path: Seq<SegView>,
    depth: nat,
)
    requires
        0 <= i < entries.len(),
        is_key(field.key, entries[i].0),
        forall|j: int| 0 <= j < i ==> !is_key(field.key, (#[trigger] entries[j]).0),
    ensures
        field_errors(m, field, entries, path, depth) == ref_errors(
            m,
            field.ty,
            entries[i].1,
            path.push(SegView::Field(field.name@)),
            depth,
        ) + constraints_errors(
            m,
            field.constraints@,
            field.ty,
            entries[i].1,
            path.push(SegView::Field(field.name@)),
            depth,
            field.constraints@.len(),
        ),
{
    assert(entry_at(field.key, entries, i));
    let k = choose|k: int| entry_at(field.key, entries, k);
    assert(!(k < i) && !(i < k));
}

/// A field that the map does not have is a failure exactly where it is required.
pub proof fn absent_field_may_be_required(
    m: IrModule,
    field: FieldDef,
    entries: Seq<(ValueView, ValueView)>,
    path: Seq<SegView>,
    depth: nat,
)
    requires
        forall|j: int| 0 <= j < entries.len() ==> !is_key(field.key, (#[trigger] entries[j]).0),
    ensures
        field.required ==> field_errors(m, field, entries, path, depth) == report(
            path,
            "missing required field '"@ + field.name@ + "'"@,
        ),
        !field.required ==> field_errors(m, field, entries, path, depth).len() == 0,
{
}

/// Whether a field is required matters only where the map does not have it.
pub proof fn required_matters_only_where_absent(
    m: IrModule,
    field: FieldDef,
    other: FieldDef,
    entries: Seq<(ValueView, ValueView)>,
    i: int,
    path: Seq<SegView>,
    depth: nat,
)
    requires
        field.name == other.name,
        field.key == other.key,
        field.ty == other.ty,
        field.constraints == other.constraints,
        0 <= i < entries.len(),
        is_key(field.key, entries[i].0),
    ensures
        field_errors(m, field, entries, path, depth) == field_errors(
            m,
            other,
            entries,
            path,
            depth,
        ),
{
    let first = first_entry(field.key, entries, i);
    present_field_is_checked(m, field, entries, first, path, depth);
    present_field_is_checked(m, other, entries, first, path, depth);
}

/// The first entry with a key.
proof fn first_entry(key: FieldKey, entries: Seq<(ValueView, ValueView)>, i: int) -> (first: int)
    requires
        0 <= i < entries.len(),
        is_key(key, entries[i].0),
    ensures
        0 <= first < entries.len(),
        is_key(key, entries[first].0),
        forall|j: int| 0 <= j < first ==> !is_key(key, (#[trigger] entries[j]).0),
    decreases i,
{
    if exists|j: int| 0 <= j < i && is_key(key, (#[trigger] entries[j]).0) {
        let j = choose|j: int| 0 <= j < i && is_key(key, (#[trigger] entries[j]).0);
        first_entry(key, entries, j)
    } else {
        i
    }
}

/// A struct with one text field, optional or not, rejects every map in which the field
/// holds no text, one that holds null among them.
pub proof fn text_field_holds_a_text(
    m: IrModule,
    s: StructDef,
    name: String,
    v: ValueView,
    path: Seq<SegView>,
    depth: nat,
)
    requires
        s.fields@.len() == 1,
        s.fields@[0].key == FieldKey::Text(name),
        s.fields@[0].ty == TypeRef::Primitive(Primitive::Tstr),
        v !is Text,
    ensures
        struct_errors(
            m,
            s,
            ValueView::Mapping(seq![(ValueView::Text(name@), v)]),
            path,
            depth,
        ).len() > 0,
{
    let entries = seq![(ValueView::Text(name@), v)];
    let field = s.fields@[0];
    let at = path.push(SegView::Field(field.name@));
    key_is_one_text_or_integer(field.key, entries[0].0);
    present_field_is_checked(m, field, entries, 0, path, depth);
    primitive_goes_by_kind(m, Primitive::Tstr, v, at, depth);
    assert(ref_errors(m, field.ty, v, at, depth).len() == 1);
    assert(fields_errors(m, s.fields@, entries, path, depth, 1) == fields_errors(
        m,
        s.fields@,
        entries,
        path,
        depth,
        0,
    ) + field_errors(m, field, entries, path, depth));
}

// Alternatives.

proof fn lemma_failed_alternatives(
    m: IrModule,
    variants: Vec<TypeRef>,
    v: ValueView,
    path: Seq<SegView>,
    depth: nat,
    n: nat,
)
    requires
        n <= variants@.len(),
    ensures
        failed_alternatives(m, variants, v, path, depth, n) is None <==> exists|i: int|
            0 <= i < n && ref_errors(m, #[trigger] variants@[i], v, path, depth).len() == 0,
        failed_alternatives(m, variants, v, path, depth, n) matches Some(detail) ==> detail
            == Seq::new(
            n,
            |i: int|
                if i == 0 {
                    ref_errors(m, variants@[i], v, path, depth)[0].message
                } else {
                    " | "@ + ref_errors(m, variants@[i], v, path, depth)[0].message
                },
        ).flatten(),
    decreases n,
{
    let each = |i: int|
        if i == 0 {
            ref_errors(m, variants@[i], v, path, depth)[0].message
        } else {
            " | "@ + ref_errors(m, variants@[i], v, path, depth)[0].message
        };
    if n > 0 {
        lemma_failed_alternatives(m, variants, v, path, depth, (n - 1) as nat);
        let last = ref_errors(m, variants@[n - 1], v, path, depth);
        assert(last.len() >= 0);
        let before = Seq::new((n - 1) as nat, each);
        before.lemma_flatten_push(each(n - 1));
        assert(before.push(each(n - 1)) =~= Seq::new(n, each));
        if let Some(detail) = failed_alternatives(m, variants, v, path, depth, (n - 1) as nat) {
            if n == 1 {
                assert(before.flatten() =~= seq![]);
                assert(before.flatten() + each(0) =~= each(0));
            } else {
                assert(detail + " | "@ + last[0].message =~= detail + (" | "@ + last[0].message));
            }
        }
    } else {
        assert(Seq::new(n, each).flatten() =~= seq![]);
    }
}

/// A choice reports nothing exactly where some alternative reports nothing, and
/// otherwise one failure, at the choice itself, that quotes the first failure of every
/// alternative in order.
pub proof fn choice_needs_one_alternative(
    m: IrModule,
    variants: Vec<TypeRef>,
    v: ValueView,
    path: Seq<SegView>,
    depth: nat,
)
    ensures
        ({
            let errors = ref_errors(m, TypeRef::Choice(variants), v, path, depth);
            let matched = exists|i: int|
                0 <= i < variants@.len() && ref_errors(
                    m,
                    #[trigger] variants@[i],
                    v,
                    path,
                    depth,
                ).len() == 0;
            &&& matched ==> errors.len() == 0
            &&& !matched ==> errors == report(
                path,
                "value did not match any alternative: "@ + Seq::new(
                    variants@.len(),
                    |i: int|
                        if i == 0 {
                            ref_errors(m, variants@[i], v, path, depth)[0].message
                        } else {
                            " | "@ + ref_errors(m, variants@[i], v, path, depth)[0].message
                        },
                ).flatten(),
            )
            &&& ref_conforms(m, TypeRef::Choice(variants), v, depth) == matched
        }),
{
    lemma_failed_alternatives(m, variants, v, path, depth, variants@.len());
    type_report_is_empty_iff_conforming(m, TypeRef::Choice(variants), v, path, depth);
}

/// More alternatives accept more: a value that one choice accepts is accepted by every
/// choice that has its alternatives, in whatever order.
pub proof fn choices_grow_with_their_alternatives(
    m: IrModule,
    few: Vec<TypeRef>,
    many: Vec<TypeRef>,
    v: ValueView,
    path: Seq<SegView>,
    depth: nat,
)
    requires
        forall|i: int| 0 <= i < few@.len() ==> many@.contains(#[trigger] few@[i]),
        ref_errors(m, TypeRef::Choice(few), v, path, depth).len() == 0,
    ensures
        ref_errors(m, TypeRef::Choice(many), v, path, depth).len() == 0,
{
    choice_needs_one_alternative(m, few, v, path, depth);
    choice_needs_one_alternative(m, many, v, path, depth);
    let i = choose|i: int|
        0 <= i < few@.len() && ref_errors(m, #[trigger] few@[i], v, path, depth).len() == 0;
    let j = choose|j: int| 0 <= j < many@.len() && many@[j] == few@[i];
    assert(ref_errors(m, many@[j], v, path, depth).len() == 0);
}

proof fn lemma_failed_variants(
    m: IrModule,
    variants: Seq<EnumVariant>,
    v: ValueView,
    path: Seq<SegView>,
    depth: nat,
    n: nat,
)
    ensures
        failed_variants(m, variants, v, path, depth, n) is None <==> exists|i: int|
            0 <= i < n && variant_errors(m, #[trigger] variants[i], v, path, depth).len() == 0,
        failed_variants(m, variants, v, path, depth, n) matches Some(attempts) ==> attempts
            == Seq::new(
            n,
            |i: int|
                " ["@ + variants[i].name@ + ": "@ + variant_errors(
                    m,
                    variants[i],
                    v,
                    path,
                    depth,
                )[0].message + "]"@,
        ).flatten(),
    decreases n,
{
    let each = |i: int|
        " ["@ + variants[i].name@ + ": "@ + variant_errors(
            m,
            variants[i],
            v,
            path,
            depth,
        )[0].message + "]"@;
    if n > 0 {
        lemma_failed_variants(m, variants, v, path, depth, (n - 1) as nat);
        assert(variant_errors(m, variants[n - 1], v, path, depth).len() >= 0);
        let before = Seq::new((n - 1) as nat, each);
        before.lemma_flatten_push(each(n - 1));
        assert(before.push(each(n - 1)) =~= Seq::new(n, each));
    } else {
        assert(Seq::new(n, each).flatten() =~= seq![]);
    }
}

/// A failed enum quotes, behind its name, every variant in order with the first failure
/// of it. A variant is checked against its type and then against its constraints.
pub proof fn enum_quotes_every_variant(
    m: IrModule,
    e: EnumDef,
    v: ValueView,
    path: Seq<SegView>,
    depth: nat,
)
    ensures
        ({
            let reports = Seq::new(
                e.variants@.len(),
                |i: int|
                    ref_errors(m, e.variants@[i].ty, v, path, depth) + constraints_errors(
                        m,
                        e.variants@[i].constraints@,
                        e.variants@[i].ty,
                        v,
                        path,
                        depth,
                        e.variants@[i].constraints@.len(),
                    ),
            );
            let matched = exists|i: int|
                0 <= i < reports.len() && (#[trigger] reports[i]).len() == 0;
            &&& matched ==> enum_errors(m, e, v, path, depth).len() == 0
            &&& !matched ==> enum_errors(m, e, v, path, depth) == report(
                path,
                "value matched no variant of '"@ + e.name@ + "'"@ + Seq::new(
                    e.variants@.len(),
                    |i: int|
                        " ["@ + e.variants@[i].name@ + ": "@ + reports[i][0].message + "]"@,
                ).flatten(),
            )
        }),
{
    let variants = e.variants@;
    let n = variants.len();
    lemma_failed_variants(m, variants, v, path, depth, n);
    let reports = Seq::new(
        n,
        |i: int|
            ref_errors(m, variants[i].ty, v, path, depth) + constraints_errors(
                m,
                variants[i].constraints@,
                variants[i].ty,
                v,
                path,
                depth,
                variants[i].constraints@.len(),
            ),
    );
    assert forall|i: int| 0 <= i < n implies #[trigger] reports[i] == variant_errors(
        m,
        variants[i],
        v,
        path,
        depth,
    ) by {}
    if exists|i: int|
        0 <= i < n && variant_errors(m, #[trigger] variants[i], v, path, depth).len() == 0 {
        let i = choose|i: int|
            0 <= i < n && variant_errors(m, #[trigger] variants[i], v, path, depth).len() == 0;
        assert(reports[i].len() == 0);
    }
    assert(Seq::new(
        n,
        |i: int|
            " ["@ + variants[i].name@ + ": "@ + variant_errors(
                m,
                variants[i],
                v,
                path,
                depth,
            )[0].message + "]"@,
    ) =~= Seq::new(n, |i: int| " ["@ + variants[i].name@ + ": "@ + reports[i][0].message + "]"@));
}

// Arrays and constraints.

/// What is no array is answered with one failure.
pub proof fn array_rule_needs_an_array(
    m: IrModule,
    a: ArrayDef,
    v: ValueView,
    path: Seq<SegView>,
    depth: nat,
)
    requires
        v !is Array,
    ensures
        array_errors(m, a, v, path, depth) == report(
            path,
            "expected an array for '"@ + a.name@ + "', found "@ + kind_name(v),
        ),
{
}

/// Every constraint is checked, in order and whatever failed before it, each with the
/// primitive that the type comes down to.
pub proof fn every_constraint_is_checked(
    m: IrModule,
    constraints: Seq<Constraint>,
    ty: TypeRef,
    v: ValueView,
    path: Seq<SegView>,
    depth: nat,
)
    ensures
        constraints_errors(m, constraints, ty, v, path, depth, constraints.len()) == Seq::new(
            constraints.len(),
            |i: int|
                constraint_errors(m, constraints[i], base_primitive(m, ty, 0), v, path, depth),
        ).flatten(),
{
    lemma_constraints_flatten(m, constraints, ty, v, path, depth, constraints.len());
}

proof fn lemma_constraints_flatten(
    m: IrModule,
    constraints: Seq<Constraint>,
    ty: TypeRef,
    v: ValueView,
    path: Seq<SegView>,
    depth: nat,
    n: nat,
)
    ensures
        constraints_errors(m, constraints, ty, v, path, depth, n) == Seq::new(
            n,
            |i: int|
                constraint_errors(m, constraints[i], base_primitive(m, ty, 0), v, path, depth),
        ).flatten(),
    decreases n,
{
    let each = |i: int|
        constraint_errors(m, constraints[i], base_primitive(m, ty, 0), v, path, depth);
    if n > 0 {
        lemma_constraints_flatten(m, constraints, ty, v, path, depth, (n - 1) as nat);
        let before = Seq::new((n - 1) as nat, each);
        before.lemma_flatten_push(each(n - 1));
        assert(before.push(each(n - 1)) =~= Seq::new(n, each));
    } else {
        assert(Seq::new(n, each).flatten() =~= seq![]);
    }
}

// Embedded CBOR.

/// `.cbor` checks the one item that is read from the front of the bytes, in place of
/// them and below the same rules; bytes that hold none are answered with one failure.
pub proof fn embedded_item_is_checked(
    m: IrModule,
    ty: TypeRef,
    base: Option<Primitive>,
    bytes: Seq<u8>,
    path: Seq<SegView>,
    depth: nat,
)
    ensures
        constraint_errors(
            m,
            Constraint::CborEmbedded(Box::new(ty)),
            base,
            ValueView::Bytes(bytes),
            path,
            depth,
        ) == (match cbor_read(bytes) {
            Ok((item, _)) => ref_errors(m, ty, item, path, depth),
            Err(failure) => report(path, "embedded CBOR did not decode: "@ + failure),
        }),
{
    let read = crate::rules::embedded_item(bytes);
    assert(crate::rules::embedded_errors(m, ty, read, path, depth) == (match cbor_read(bytes) {
        Ok((item, _)) => ref_errors(m, ty, item, path, depth),
        Err(failure) => report(path, "embedded CBOR did not decode: "@ + failure),
    }));
}

/// Item `k` is what is read where it begins, and what follows it begins where it ends.
pub open spec fn item_is_read(
    bytes: Seq<u8>,
    items: Seq<ValueView>,
    starts: Seq<int>,
    k: int,
) -> bool {
    &&& 0 <= starts[k] < starts[k + 1] <= bytes.len()
    &&& cbor_read(bytes.skip(starts[k])) == Ok::<(ValueView, nat), Seq<char>>(
        (items[k], (bytes.len() - starts[k + 1]) as nat),
    )
}

/// The items that are read from bytes one after another: `starts[k]` is where item `k`
/// begins, and the last of `starts` is where reading ends.
pub open spec fn reads_one_after_another(
    bytes: Seq<u8>,
    items: Seq<ValueView>,
    starts: Seq<int>,
) -> bool {
    &&& starts.len() == items.len() + 1
    &&& starts[0] == 0
    &&& forall|k: int| 0 <= k < items.len() ==> #[trigger] item_is_read(bytes, items, starts, k)
}

proof fn lemma_items_read(bytes: Seq<u8>, items: Seq<ValueView>, starts: Seq<int>, k: int)
    requires
        reads_one_after_another(bytes, items, starts),
        0 <= k <= items.len(),
        0 <= starts[k] <= bytes.len(),
        0 <= starts.last() <= bytes.len(),
    ensures
        starts.last() == bytes.len() ==> embedded_items(bytes.skip(starts[k])) == (
            items.skip(k),
            None::<Seq<char>>,
        ),
        starts.last() < bytes.len() ==> (cbor_read(bytes.skip(starts.last())) matches Err(failure)
            ==> embedded_items(bytes.skip(starts[k])) == (items.skip(k), Some(failure))),
    decreases items.len() - k,
{
    if k == items.len() {
        assert(items.skip(k) =~= seq![]);
        assert(starts[k] == starts.last());
    } else {
        assert(item_is_read(bytes, items, starts, k));
        let rest = (bytes.len() - starts[k + 1]) as nat;
        let tail = bytes.skip(starts[k]);
        lemma_items_read(bytes, items, starts, k + 1);
        assert(tail.skip(tail.len() - rest) =~= bytes.skip(starts[k + 1]));
        assert(seq![items[k]] + items.skip(k + 1) =~= items.skip(k));
    }
}

/// `.cborseq` checks every item that is read one after another, each at its index, and
/// reports behind them the item at which reading failed, if it did.
pub proof fn every_embedded_item_is_checked(
    m: IrModule,
    ty: TypeRef,
    base: Option<Primitive>,
    bytes: Seq<u8>,
    items: Seq<ValueView>,
    starts: Seq<int>,
    path: Seq<SegView>,
    depth: nat,
)
    requires
        reads_one_after_another(bytes, items, starts),
        0 <= starts.last() <= bytes.len(),
        starts.last() < bytes.len() ==> cbor_read(bytes.skip(starts.last())) is Err,
    ensures
        constraint_errors(
            m,
            Constraint::CborSeq(Box::new(ty)),
            base,
            ValueView::Bytes(bytes),
            path,
            depth,
        ) == Seq::new(
            items.len(),
            |k: int| ref_errors(m, ty, items[k], path.push(SegView::Index(k as nat)), depth),
        ).flatten() + (if starts.last() == bytes.len() {
            Seq::<ErrorView>::empty()
        } else {
            report(
                path,
                "embedded CBOR sequence item "@ + decimal(items.len() as int)
                    + " did not decode: "@ + cbor_read(bytes.skip(starts.last()))->Err_0,
            )
        }),
{
    lemma_items_read(bytes, items, starts, 0);
    assert(bytes.skip(0) =~= bytes);
    assert(items.skip(0) =~= items);
    let read = embedded_items(bytes);
    lemma_item_reports_flatten(m, ty, items, path, depth, items.len());
    assert(sequence_errors(m, ty, read, path, depth) == items_errors(
        m,
        ty,
        items,
        path,
        depth,
        items.len(),
    ) + crate::rules::report_any(path, crate::rules::sequence_failure(read)));
}

proof fn lemma_item_reports_flatten(
    m: IrModule,
    ty: TypeRef,
    items: Seq<ValueView>,
    path: Seq<SegView>,
    depth: nat,
    n: nat,
)
    ensures
        items_errors(m, ty, items, path, depth, n) == Seq::new(
            n,
            |k: int| ref_errors(m, ty, items[k], path.push(SegView::Index(k as nat)), depth),
        ).flatten(),
    decreases n,
{
    let each = |k: int| ref_errors(m, ty, items[k], path.push(SegView::Index(k as nat)), depth);
    if n > 0 {
        lemma_item_reports_flatten(m, ty, items, path, depth, (n - 1) as nat);
        let before = Seq::new((n - 1) as nat, each);
        before.lemma_flatten_push(each(n - 1));
        assert(before.push(each(n - 1)) =~= Seq::new(n, each));
    } else {
        assert(Seq::new(n, each).flatten() =~= seq![]);
    }
}

/// `.cbor` and `.cborseq` give the text of a byte string and the byte string itself the
/// same report, and reject every other text and every other kind with one failure.
pub proof fn embedded_cbor_is_carried_by_bytes(
    m: IrModule,
    ty: TypeRef,
    base: Option<Primitive>,
    bytes: Seq<u8>,
    v: ValueView,
    path: Seq<SegView>,
    depth: nat,
)
    ensures
        constraint_errors(
            m,
            Constraint::CborEmbedded(Box::new(ty)),
            base,
            ValueView::Text(encoding(bytes)),
            path,
            depth,
        ) == constraint_errors(
            m,
            Constraint::CborEmbedded(Box::new(ty)),
            base,
            ValueView::Bytes(bytes),
            path,
            depth,
        ),
        constraint_errors(
            m,
            Constraint::CborSeq(Box::new(ty)),
            base,
            ValueView::Text(encoding(bytes)),
            path,
            depth,
        ) == constraint_errors(
            m,
            Constraint::CborSeq(Box::new(ty)),
            base,
            ValueView::Bytes(bytes),
            path,
            depth,
        ),
        v !is Bytes && (forall|b: Seq<u8>| v != ValueView::Text(#[trigger] encoding(b))) ==> {
            let failure = report(
                path,
                if v is Text {
                    "expected base64url-encoded bytes for embedded CBOR"@
                } else {
                    ".cbor/.cborseq constraint does not apply to "@ + kind_name(v)
                },
            );
            &&& constraint_errors(m, Constraint::CborEmbedded(Box::new(ty)), base, v, path, depth)
                == failure
            &&& constraint_errors(m, Constraint::CborSeq(Box::new(ty)), base, v, path, depth)
                == failure
        },
{
    encoding_reads_back(bytes);
    if v is Text && encoded_bytes(v) is Some {
        assert(v == ValueView::Text(encoding(encoded_bytes(v)->0)));
    }
}

} // verus!
