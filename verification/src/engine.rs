//! The validation walk: match a decoded [`Value`] against a resolved
//! [`IrModule`], producing a list of [`ValidationError`]s.

use vstd::prelude::*;

use crate::checks::{
    bound_view, bytes_view, carried_bytes, check_cardinality, check_eq, check_ne, check_range,
    check_range_f64, check_regexp, check_size, describe_key, embedded_item, embedded_items,
    encoded_bytes, field_key_matches, is_of, kind_name, primitive_name, text_view, unwrap_tag,
};
use crate::conformance::{document_conforms, report_is_empty_iff_conforming};
use crate::error::{copy_path, errors_view, path_view, ErrorView, PathSeg, SegView, ValidationError};
use crate::ir::{
    ArrayDef, Constraint, EnumDef, EnumVariant, FieldDef, IrModule, LiteralValue, Primitive,
    StructDef, TypeDef, TypeRef,
};
use crate::not_a_number::{lemma_items, payload_of_a_nan_is_irrelevant_to_a_type};
use crate::rules;
use crate::rules::MAX_DEPTH;
use crate::text::{concat2, concat3, concat4, concat5, decimal_text};
use crate::value::{entries_view, items_view, Value, ValueView};

verus! {

/// The state of a walk: the schema, the failures found so far and the number of
/// rules being checked.
pub struct Ctx<'m> {
    pub module: &'m IrModule,
    pub errors: Vec<ValidationError>,
    pub depth: usize,
}

impl<'m> Ctx<'m> {
    /// What has been reported so far.
    pub open spec fn log(self) -> Seq<ErrorView> {
        errors_view(self.errors@)
    }

    /// `after` is this state with more failures reported.
    pub open spec fn reports(self, after: Ctx<'m>, added: Seq<ErrorView>) -> bool {
        &&& after.module == self.module
        &&& after.depth == self.depth
        &&& after.log() == self.log() + added
    }

    /// The state before anything is checked.
    pub fn new(module: &'m IrModule) -> (ctx: Self)
        ensures
            ctx.module == module,
            ctx.depth == 0,
            ctx.log() == Seq::<ErrorView>::empty(),
    {
        let ctx = Ctx { module, errors: Vec::new(), depth: 0 };
        assert(ctx.log() =~= seq![]);
        ctx
    }

    /// Two reports one after the other are one report.
    proof fn lemma_reports_join(
        before: Ctx<'m>,
        between: Ctx<'m>,
        after: Ctx<'m>,
        first: Seq<ErrorView>,
        second: Seq<ErrorView>,
    )
        requires
            before.reports(between, first),
            between.reports(after, second),
        ensures
            before.reports(after, first + second),
    {
        assert((before.log() + first) + second =~= before.log() + (first + second));
    }

    fn err(&mut self, path: &Vec<PathSeg>, message: String)
        ensures
            old(self).reports(*final(self), rules::report(path_view(path@), message@)),
    {
        let error = ValidationError::new(copy_path(path), message);
        self.errors.push(error);
        assert(self.log() =~= old(self).log() + rules::report(path_view(path@), message@));
    }

    fn err_any(&mut self, path: &Vec<PathSeg>, failure: Option<String>)
        ensures
            old(self).reports(*final(self), rules::report_any(path_view(path@), text_view(failure))),
    {
        match failure {
            Some(message) => self.err(path, message),
            None => {
                assert(self.log() =~= old(self).log() + Seq::<ErrorView>::empty());
            },
        }
    }

    /// Enters one more rule, or reports that the descent has gone too deep.
    pub fn guard_depth(&mut self, path: &Vec<PathSeg>) -> (entered: bool)
        ensures
            entered == (old(self).depth < MAX_DEPTH),
            old(self).depth <= MAX_DEPTH ==> final(self).depth <= MAX_DEPTH,
            entered ==> final(self).module == old(self).module && final(self).errors == old(
                self,
            ).errors && final(self).depth == old(self).depth + 1,
            !entered ==> old(self).reports(
                *final(self),
                rules::report(path_view(path@), rules::too_deep()),
            ),
    {
        if self.depth >= MAX_DEPTH {
            self.err(
                path,
                concat3(
                    "exceeded maximum nesting depth (",
                    decimal_text(MAX_DEPTH as i128).as_str(),
                    ")",
                ),
            );
            return false;
        }
        self.depth += 1;
        true
    }

    /// Checks a value against a rule of the schema.
    pub fn check_def(&mut self, def: &TypeDef, value: &Value, path: &mut Vec<PathSeg>)
        ensures
            final(path)@ == old(path)@,
            old(self).reports(
                *final(self),
                rules::def_errors(
                    *old(self).module,
                    *def,
                    value@,
                    path_view(old(path)@),
                    old(self).depth as nat,
                ),
            ),
        decreases MAX_DEPTH - old(self).depth, 0int, *old(self).module, 0int,
    {
        if !self.guard_depth(path) {
            return;
        }
        let ghost entered = *self;
        let ghost at = path_view(path@);
        match def {
            TypeDef::Struct(s) => match unwrap_tag(s.tagged, value) {
                Ok(payload) => self.check_struct(s, payload, path),
                Err(message) => self.err(path, message),
            },
            TypeDef::Enum(e) => match unwrap_tag(e.tagged, value) {
                Ok(payload) => self.check_enum(e, payload, path),
                Err(message) => self.err(path, message),
            },
            TypeDef::Array(a) => match unwrap_tag(a.tagged, value) {
                Ok(payload) => self.check_array(a, payload, path),
                Err(message) => self.err(path, message),
            },
            // Tables are not checked yet. Fail clearly rather than silently
            // mis-validating.
            TypeDef::Table(t) => self.err(
                path,
                concat3(
                    "'",
                    t.name.as_str(),
                    "' uses a CDDL table ({* K => V}), which this validator does not yet support",
                ),
            ),
            TypeDef::Alias(a) => match unwrap_tag(a.tagged, value) {
                Ok(payload) => {
                    self.check_typeref(&a.ty, payload, path);
                    let ghost between = *self;
                    self.check_constraints(&a.constraints, &a.ty, payload, path);
                    proof {
                        let m = *entered.module;
                        let depth = entered.depth as nat;
                        Self::lemma_reports_join(
                            entered,
                            between,
                            *self,
                            rules::ref_errors(m, a.ty, payload@, at, depth),
                            rules::constraints_errors(
                                m,
                                a.constraints@,
                                a.ty,
                                payload@,
                                at,
                                depth,
                                a.constraints@.len(),
                            ),
                        );
                    }
                },
                Err(message) => self.err(path, message),
            },
        }
        self.depth -= 1;
    }

    /// Checks a value against the fields of a struct.
    pub fn check_struct(&mut self, s: &StructDef, value: &Value, path: &mut Vec<PathSeg>)
        ensures
            final(path)@ == old(path)@,
            old(self).reports(
                *final(self),
                rules::struct_errors(
                    *old(self).module,
                    *s,
                    value@,
                    path_view(old(path)@),
                    old(self).depth as nat,
                ),
            ),
        decreases MAX_DEPTH - old(self).depth, 8int, *old(self).module, 0int,
    {
        let entries = match value {
            Value::Mapping(entries) => entries,
            _ => {
                self.err(
                    path,
                    concat4(
                        "expected a map for struct '",
                        s.name.as_str(),
                        "', found ",
                        kind_name(value),
                    ),
                );
                return;
            },
        };
        let ghost m = *self.module;
        let ghost at = path_view(path@);
        let ghost view = entries_view(*entries);
        let ghost start = self.log();
        let mut i: usize = 0;
        assert(start =~= start + Seq::<ErrorView>::empty());
        while i < s.fields.len()
            invariant
                i <= s.fields.len(),
                m == *old(self).module,
                view == entries_view(*entries),
                at == path_view(path@),
                path@ == old(path)@,
                start == old(self).log(),
                self.depth == old(self).depth,
                old(self).reports(
                    *self,
                    rules::fields_errors(m, s.fields@, view, at, self.depth as nat, i as nat),
                ),
            decreases s.fields.len() - i,
        {
            let ghost before = rules::fields_errors(
                m,
                s.fields@,
                view,
                at,
                self.depth as nat,
                i as nat,
            );
            self.check_field(&s.fields[i], entries, path);
            i += 1;
            proof {
                let added = rules::field_errors(m, s.fields@[i - 1], view, at, self.depth as nat);
                assert((start + before) + added =~= start + (before + added));
            }
        }
        let ghost fields = rules::fields_errors(
            m,
            s.fields@,
            view,
            at,
            self.depth as nat,
            s.fields@.len(),
        );
        let mut j: usize = 0;
        assert(start + fields =~= (start + fields) + Seq::<ErrorView>::empty());
        while j < entries.len()
            invariant
                j <= entries.len(),
                m == *old(self).module,
                view == entries_view(*entries),
                at == path_view(path@),
                path@ == old(path)@,
                start == old(self).log(),
                self.module == old(self).module,
                self.depth == old(self).depth,
                self.log() == (start + fields) + rules::unknown_errors(
                    s.fields@,
                    view,
                    at,
                    j as nat,
                ),
            decreases entries.len() - j,
        {
            let key = &entries[j].0;
            let ghost before = rules::unknown_errors(s.fields@, view, at, j as nat);
            assert(key@ == view[j as int].0);
            if !is_known_key(&s.fields, key) {
                self.err(path, concat2("unknown field ", describe_key(key).as_str()));
                proof {
                    let added = rules::report(
                        at,
                        "unknown field "@ + rules::described_key(view[j as int].0),
                    );
                    assert(((start + fields) + before) + added =~= (start + fields) + (before
                        + added));
                }
            }
            j += 1;
        }
        assert((start + fields) + rules::unknown_errors(s.fields@, view, at, view.len()) =~= start
            + (fields + rules::unknown_errors(s.fields@, view, at, view.len())));
    }

    fn check_field(
        &mut self,
        field: &FieldDef,
        entries: &Vec<(Value, Value)>,
        path: &mut Vec<PathSeg>,
    )
        ensures
            final(path)@ == old(path)@,
            old(self).reports(
                *final(self),
                rules::field_errors(
                    *old(self).module,
                    *field,
                    entries_view(*entries),
                    path_view(old(path)@),
                    old(self).depth as nat,
                ),
            ),
        decreases MAX_DEPTH - old(self).depth, 6int, *old(self).module, 0int,
    {
        match find_entry(field, entries) {
            Some(value) => {
                path.push(PathSeg::Field(field.name.clone()));
                proof {
                    assert(path_view(path@) =~= path_view(old(path)@).push(
                        SegView::Field(field.name@),
                    ));
                }
                let ghost at = path_view(path@);
                self.check_typeref(&field.ty, value, path);
                let ghost between = *self;
                self.check_constraints(&field.constraints, &field.ty, value, path);
                path.pop();
                proof {
                    let m = *old(self).module;
                    let depth = old(self).depth as nat;
                    assert(path@ =~= old(path)@);
                    Self::lemma_reports_join(
                        *old(self),
                        between,
                        *self,
                        rules::ref_errors(m, field.ty, value@, at, depth),
                        rules::constraints_errors(
                            m,
                            field.constraints@,
                            field.ty,
                            value@,
                            at,
                            depth,
                            field.constraints@.len(),
                        ),
                    );
                }
            },
            None => {
                if field.required {
                    self.err(
                        path,
                        concat3("missing required field '", field.name.as_str(), "'"),
                    );
                } else {
                    assert(self.log() =~= old(self).log() + Seq::<ErrorView>::empty());
                }
            },
        }
    }
}

/// The value of a field, if the map has it: the first entry whose key matches.
fn find_entry<'v>(field: &FieldDef, entries: &'v Vec<(Value, Value)>) -> (value: Option<&'v Value>)
    ensures
        rules::field_value(field.key, entries_view(*entries)) == (match value {
            Some(value) => Some(value@),
            None => None,
        }),
{
    let ghost view = entries_view(*entries);
    let mut i: usize = 0;
    while i < entries.len()
        invariant
            i <= entries.len(),
            view == entries_view(*entries),
            forall|j: int| 0 <= j < i ==> !rules::is_key(field.key, (#[trigger] view[j]).0),
        decreases entries.len() - i,
    {
        let entry = &entries[i];
        assert(view[i as int] == (entry.0@, entry.1@));
        if field_key_matches(&field.key, &entry.0) {
            proof {
                assert(rules::entry_at(field.key, view, i as int));
                let k = choose|k: int| rules::entry_at(field.key, view, k);
                assert(!(k < i) && !(i < k));
            }
            return Some(&entry.1);
        }
        i += 1;
    }
    assert(forall|k: int| !rules::entry_at(field.key, view, k));
    None
}

/// Whether some field is looked up under a key.
fn is_known_key(fields: &Vec<FieldDef>, key: &Value) -> (known: bool)
    ensures
        known == rules::is_known_key(fields@, key@),
{
    let mut i: usize = 0;
    while i < fields.len()
        invariant
            i <= fields.len(),
            forall|j: int| 0 <= j < i ==> !rules::is_key((#[trigger] fields@[j]).key, key@),
        decreases fields.len() - i,
    {
        if field_key_matches(&fields[i].key, key) {
            assert(rules::is_key(fields@[i as int].key, key@));
            return true;
        }
        i += 1;
    }
    false
}

impl<'m> Ctx<'m> {
    /// Checks a value against the variants of an enum: it has to match one of them.
    pub fn check_enum(&mut self, e: &EnumDef, value: &Value, path: &mut Vec<PathSeg>)
        ensures
            final(path)@ == old(path)@,
            old(self).reports(
                *final(self),
                rules::enum_errors(
                    *old(self).module,
                    *e,
                    value@,
                    path_view(old(path)@),
                    old(self).depth as nat,
                ),
            ),
        decreases MAX_DEPTH - old(self).depth, 8int, *old(self).module, 0int,
    {
        let ghost m = *self.module;
        let ghost at = path_view(path@);
        let mut attempts = String::new();
        let mut i: usize = 0;
        while i < e.variants.len()
            invariant
                i <= e.variants.len(),
                m == *old(self).module,
                at == path_view(path@),
                *self == *old(self),
                path@ == old(path)@,
                rules::failed_variants(m, e.variants@, value@, at, self.depth as nat, i as nat)
                    == Some(attempts@),
            decreases e.variants.len() - i,
        {
            let variant = &e.variants[i];
            let errors = self.try_check_variant(variant, value, path);
            i += 1;
            if errors.len() == 0 {
                proof {
                    lemma_variant_found(
                        m,
                        e.variants@,
                        value@,
                        at,
                        self.depth as nat,
                        i as nat,
                        e.variants@.len(),
                    );
                    assert(self.log() =~= old(self).log() + Seq::<ErrorView>::empty());
                }
                return;
            }
            let first = &errors[0];
            let attempt = concat5(" [", variant.name.as_str(), ": ", first.message.as_str(), "]");
            attempts.append(attempt.as_str());
            assert(errors_view(errors@)[0].message == first.message@);
        }
        self.err(
            path,
            concat4(
                "value matched no variant of '",
                e.name.as_str(),
                "'",
                attempts.as_str(),
            ),
        );
    }

    /// Checks how many elements an array has, and each of them.
    pub fn check_array(&mut self, a: &ArrayDef, value: &Value, path: &mut Vec<PathSeg>)
        ensures
            final(path)@ == old(path)@,
            old(self).reports(
                *final(self),
                rules::array_errors(
                    *old(self).module,
                    *a,
                    value@,
                    path_view(old(path)@),
                    old(self).depth as nat,
                ),
            ),
        decreases MAX_DEPTH - old(self).depth, 8int, *old(self).module, 0int,
    {
        let items = match value {
            Value::Array(items) => items,
            _ => {
                self.err(
                    path,
                    concat4(
                        "expected an array for '",
                        a.name.as_str(),
                        "', found ",
                        kind_name(value),
                    ),
                );
                return;
            },
        };
        assert(items_view(*items).len() == items@.len());
        self.err_any(path, check_cardinality(a.occurrence, items.len(), a.name.as_str()));
        let ghost between = *self;
        self.check_items(&a.element, items, path);
        proof {
            let at = path_view(path@);
            Self::lemma_reports_join(
                *old(self),
                between,
                *self,
                rules::report_any(
                    at,
                    rules::cardinality_failure(a.occurrence, items@.len(), a.name@),
                ),
                rules::items_errors(
                    *between.module,
                    a.element,
                    items_view(*items),
                    at,
                    between.depth as nat,
                    items@.len(),
                ),
            );
        }
    }

    /// Checks each item against the same type.
    fn check_items(&mut self, ty: &TypeRef, items: &Vec<Value>, path: &mut Vec<PathSeg>)
        ensures
            final(path)@ == old(path)@,
            old(self).reports(
                *final(self),
                rules::items_errors(
                    *old(self).module,
                    *ty,
                    items_view(*items),
                    path_view(old(path)@),
                    old(self).depth as nat,
                    items@.len(),
                ),
            ),
        decreases MAX_DEPTH - old(self).depth, 2int, *old(self).module, 0int,
    {
        let ghost m = *self.module;
        let ghost at = path_view(path@);
        let ghost view = items_view(*items);
        let ghost start = self.log();
        let mut i: usize = 0;
        assert(start =~= start + Seq::<ErrorView>::empty());
        while i < items.len()
            invariant
                i <= items.len(),
                m == *old(self).module,
                at == path_view(path@),
                view == items_view(*items),
                start == old(self).log(),
                self.depth == old(self).depth,
                path@ == old(path)@,
                old(self).reports(
                    *self,
                    rules::items_errors(m, *ty, view, at, self.depth as nat, i as nat),
                ),
            decreases items.len() - i,
        {
            let ghost before = rules::items_errors(m, *ty, view, at, self.depth as nat, i as nat);
            path.push(PathSeg::Index(i));
            proof {
                assert(path_view(path@) =~= at.push(SegView::Index(i as nat)));
                assert(items@[i as int]@ == view[i as int]);
            }
            self.check_typeref(ty, &items[i], path);
            path.pop();
            proof {
                assert(path@ =~= old(path)@);
                let added = rules::ref_errors(
                    m,
                    *ty,
                    view[i as int],
                    at.push(SegView::Index(i as nat)),
                    self.depth as nat,
                );
                assert((start + before) + added =~= start + (before + added));
            }
            i += 1;
        }
    }

    /// Checks a value against a type.
    pub fn check_typeref(&mut self, ty: &TypeRef, value: &Value, path: &mut Vec<PathSeg>)
        ensures
            final(path)@ == old(path)@,
            old(self).reports(
                *final(self),
                rules::ref_errors(
                    *old(self).module,
                    *ty,
                    value@,
                    path_view(old(path)@),
                    old(self).depth as nat,
                ),
            ),
        decreases MAX_DEPTH - old(self).depth, 1int, *ty, 0int,
    {
        match ty {
            TypeRef::Primitive(p) => self.check_primitive(*p, value, path),
            TypeRef::Named(name) => match self.module.get(name.as_str()) {
                Some(def) => self.check_def(def, value, path),
                None => self.err(
                    path,
                    concat3(
                        "internal error: type '",
                        name.as_str(),
                        "' is referenced but not defined",
                    ),
                ),
            },
            TypeRef::Choice(variants) => self.check_choice(variants, value, path),
            TypeRef::Tagged(tag, inner) => match unwrap_tag(Some(*tag), value) {
                Ok(payload) => self.check_typeref(inner, payload, path),
                Err(message) => self.err(path, message),
            },
        }
    }

    fn check_choice(&mut self, variants: &Vec<TypeRef>, value: &Value, path: &mut Vec<PathSeg>)
        ensures
            final(path)@ == old(path)@,
            old(self).reports(
                *final(self),
                match rules::failed_alternatives(
                    *old(self).module,
                    *variants,
                    value@,
                    path_view(old(path)@),
                    old(self).depth as nat,
                    variants@.len(),
                ) {
                    Some(detail) => rules::report(
                        path_view(old(path)@),
                        "value did not match any alternative: "@ + detail,
                    ),
                    None => seq![],
                },
            ),
        decreases MAX_DEPTH - old(self).depth, 1int, *variants, variants@.len(),
    {
        let ghost m = *self.module;
        let ghost at = path_view(path@);
        let mut detail = String::new();
        let mut i: usize = 0;
        while i < variants.len()
            invariant
                i <= variants.len(),
                m == *old(self).module,
                at == path_view(path@),
                *self == *old(self),
                path@ == old(path)@,
                rules::failed_alternatives(m, *variants, value@, at, self.depth as nat, i as nat)
                    == Some(detail@),
            decreases variants.len() - i,
        {
            assert(decreases_to!(*variants => variants@[i as int]));
            let errors = self.try_check(&variants[i], value, path);
            i += 1;
            if errors.len() == 0 {
                proof {
                    lemma_alternative_found(
                        m,
                        *variants,
                        value@,
                        at,
                        self.depth as nat,
                        i as nat,
                        variants@.len(),
                    );
                    assert(self.log() =~= old(self).log() + Seq::<ErrorView>::empty());
                }
                return;
            }
            let first = &errors[0];
            assert(errors_view(errors@)[0].message == first.message@);
            if i == 1 {
                detail = first.message.clone();
            } else {
                detail = concat3(detail.as_str(), " | ", first.message.as_str());
            }
        }
        self.err(path, concat2("value did not match any alternative: ", detail.as_str()));
    }

    /// Checks one alternative of a type choice in a state of its own, so that a
    /// failed attempt does not pollute the failures reported so far.
    pub fn try_check(&self, ty: &TypeRef, value: &Value, path: &Vec<PathSeg>) -> (errors: Vec<
        ValidationError,
    >)
        ensures
            errors_view(errors@) == rules::ref_errors(
                *self.module,
                *ty,
                value@,
                path_view(path@),
                self.depth as nat,
            ),
        decreases MAX_DEPTH - self.depth, 1int, *ty, 1int,
    {
        let mut sub = Ctx { module: self.module, errors: Vec::new(), depth: self.depth };
        let mut own_path = copy_path(path);
        let ghost start = sub.log();
        sub.check_typeref(ty, value, &mut own_path);
        assert(start =~= seq![]);
        assert(sub.log() =~= rules::ref_errors(
            *self.module,
            *ty,
            value@,
            path_view(path@),
            self.depth as nat,
        ));
        sub.errors
    }

    /// Like [`Self::try_check`], but also applies an enum variant's own
    /// constraints (the literal value that discriminates it from sibling
    /// variants sharing the same underlying primitive; see [`EnumVariant`]).
    pub fn try_check_variant(&self, variant: &EnumVariant, value: &Value, path: &Vec<PathSeg>) -> (errors:
        Vec<ValidationError>)
        ensures
            errors_view(errors@) == rules::variant_errors(
                *self.module,
                *variant,
                value@,
                path_view(path@),
                self.depth as nat,
            ),
        decreases MAX_DEPTH - self.depth, 6int, *self.module, 0int,
    {
        let mut sub = Ctx { module: self.module, errors: Vec::new(), depth: self.depth };
        let mut own_path = copy_path(path);
        let ghost start = sub.log();
        sub.check_typeref(&variant.ty, value, &mut own_path);
        sub.check_constraints(&variant.constraints, &variant.ty, value, &mut own_path);
        assert(start =~= seq![]);
        assert(sub.log() =~= rules::variant_errors(
            *self.module,
            *variant,
            value@,
            path_view(path@),
            self.depth as nat,
        ));
        sub.errors
    }

    /// Checks a value against a primitive type.
    pub fn check_primitive(&mut self, p: Primitive, value: &Value, path: &Vec<PathSeg>)
        ensures
            old(self).reports(
                *final(self),
                if rules::is_of(p, value@, rules::encoded_bytes(value@)) {
                    seq![]
                } else {
                    rules::report(
                        path_view(path@),
                        "expected "@ + rules::primitive_name(p) + ", found "@ + rules::kind_name(
                            value@,
                        ),
                    )
                },
            ),
    {
        let encoded = encoded_where(matches!(p, Primitive::Bstr), value);
        if is_of(p, value, &encoded) {
            assert(self.log() =~= old(self).log() + Seq::<ErrorView>::empty());
        } else {
            self.err(path, concat4("expected ", primitive_name(p), ", found ", kind_name(value)));
        }
    }

    /// Resolves a type down to its ultimate primitive, when unambiguous. Used only
    /// to disambiguate how `.size` should measure a value (decoded base64url bytes
    /// for a `bstr` field, UTF-8 length for `tstr`, byte width for an integer).
    pub fn base_primitive(&self, ty: &TypeRef, depth: usize) -> (base: Option<Primitive>)
        ensures
            base == rules::base_primitive(*self.module, *ty, depth as nat),
        decreases MAX_DEPTH + 1 - depth,
    {
        if depth > MAX_DEPTH {
            return None;
        }
        match ty {
            TypeRef::Primitive(p) => Some(*p),
            TypeRef::Named(name) => match self.module.get(name.as_str()) {
                Some(TypeDef::Alias(alias)) => self.base_primitive(&alias.ty, depth + 1),
                _ => None,
            },
            TypeRef::Tagged(_, inner) => self.base_primitive(inner, depth + 1),
            TypeRef::Choice(_) => None,
        }
    }

    /// Checks a value against each of the constraints on its type.
    pub fn check_constraints(
        &mut self,
        constraints: &Vec<Constraint>,
        ty: &TypeRef,
        value: &Value,
        path: &mut Vec<PathSeg>,
    )
        ensures
            final(path)@ == old(path)@,
            old(self).reports(
                *final(self),
                rules::constraints_errors(
                    *old(self).module,
                    constraints@,
                    *ty,
                    value@,
                    path_view(old(path)@),
                    old(self).depth as nat,
                    constraints@.len(),
                ),
            ),
        decreases MAX_DEPTH - old(self).depth, 5int, *old(self).module, 0int,
    {
        let ghost m = *self.module;
        let ghost at = path_view(path@);
        let ghost start = self.log();
        assert(start =~= start + Seq::<ErrorView>::empty());
        if constraints.len() == 0 {
            return;
        }
        let base = self.base_primitive(ty, 0);
        let mut i: usize = 0;
        while i < constraints.len()
            invariant
                i <= constraints.len(),
                m == *old(self).module,
                at == path_view(path@),
                start == old(self).log(),
                base == rules::base_primitive(m, *ty, 0),
                self.depth == old(self).depth,
                path@ == old(path)@,
                old(self).reports(
                    *self,
                    rules::constraints_errors(
                        m,
                        constraints@,
                        *ty,
                        value@,
                        at,
                        self.depth as nat,
                        i as nat,
                    ),
                ),
            decreases constraints.len() - i,
        {
            let ghost before = rules::constraints_errors(
                m,
                constraints@,
                *ty,
                value@,
                at,
                self.depth as nat,
                i as nat,
            );
            self.check_constraint(&constraints[i], base, value, path);
            proof {
                let added = rules::constraint_errors(
                    m,
                    constraints@[i as int],
                    base,
                    value@,
                    at,
                    self.depth as nat,
                );
                assert((start + before) + added =~= start + (before + added));
            }
            i += 1;
        }
    }

    fn check_constraint(
        &mut self,
        constraint: &Constraint,
        base: Option<Primitive>,
        value: &Value,
        path: &mut Vec<PathSeg>,
    )
        ensures
            final(path)@ == old(path)@,
            old(self).reports(
                *final(self),
                rules::constraint_errors(
                    *old(self).module,
                    *constraint,
                    base,
                    value@,
                    path_view(old(path)@),
                    old(self).depth as nat,
                ),
            ),
        decreases MAX_DEPTH - old(self).depth, 4int, *old(self).module, 1int,
    {
        match constraint {
            Constraint::SizeExact(n) => {
                let encoded = encoded_where(matches!(base, Some(Primitive::Bstr)), value);
                self.err_any(path, check_size(base, value, &encoded, Some(*n), Some(*n)));
            },
            Constraint::SizeRange { min, max } => {
                let encoded = encoded_where(matches!(base, Some(Primitive::Bstr)), value);
                self.err_any(path, check_size(base, value, &encoded, *min, *max));
            },
            Constraint::ValueRangeInt { min, max, inclusive } => {
                let low = int_bound(*min);
                let high = int_bound(*max);
                self.err_any(path, check_range(value, low, high, *inclusive));
            },
            Constraint::ValueRangeUint { min, max, inclusive } => {
                let low = uint_bound(*min);
                let high = uint_bound(*max);
                self.err_any(path, check_range(value, low, high, *inclusive));
            },
            Constraint::ValueRangeF64 { min, max, inclusive } => {
                self.err_any(path, check_range_f64(value, *min, *max, *inclusive));
            },
            Constraint::Eq(literal) => {
                let encoded = encoded_where(matches!(literal, LiteralValue::Bytes(_)), value);
                self.err_any(path, check_eq(literal, value, &encoded));
            },
            Constraint::Ne(literal) => {
                let encoded = encoded_where(matches!(literal, LiteralValue::Bytes(_)), value);
                self.err_any(path, check_ne(literal, value, &encoded));
            },
            Constraint::Regexp { pattern } => {
                self.err_any(path, check_regexp(value, pattern.as_str()));
            },
            Constraint::CborEmbedded(inner) => self.check_cbor_embedded(value, inner, false, path),
            Constraint::CborSeq(inner) => self.check_cbor_embedded(value, inner, true, path),
            // Informational only: does not relax presence/type checks.
            Constraint::Default(_) => {
                assert(self.log() =~= old(self).log() + Seq::<ErrorView>::empty());
            },
        }
    }

    /// Checks `.cbor`, or `.cborseq` where `is_seq` is set: reads the items that the
    /// bytes of a value hold and checks them.
    fn check_cbor_embedded(
        &mut self,
        value: &Value,
        inner: &TypeRef,
        is_seq: bool,
        path: &mut Vec<PathSeg>,
    )
        ensures
            final(path)@ == old(path)@,
            old(self).reports(
                *final(self),
                match rules::carried_bytes(value@, rules::encoded_bytes(value@)) {
                    Ok(bytes) => if is_seq {
                        rules::sequence_errors(
                            *old(self).module,
                            *inner,
                            rules::embedded_items(bytes),
                            path_view(old(path)@),
                            old(self).depth as nat,
                        )
                    } else {
                        rules::embedded_errors(
                            *old(self).module,
                            *inner,
                            rules::embedded_item(bytes),
                            path_view(old(path)@),
                            old(self).depth as nat,
                        )
                    },
                    Err(message) => rules::report(path_view(old(path)@), message),
                },
            ),
        decreases MAX_DEPTH - old(self).depth, 4int, *old(self).module, 0int,
    {
        let bytes = match carried_bytes(value, encoded_bytes(value)) {
            Ok(bytes) => bytes,
            Err(message) => {
                self.err(path, message);
                return;
            },
        };
        let ghost m = *self.module;
        let ghost at = path_view(path@);
        let ghost depth = self.depth as nat;
        if is_seq {
            let (items, failure) = embedded_items(&bytes);
            proof {
                let view = items_view(items);
                lemma_items(m, *inner, view, at, depth, view.len());
            }
            self.check_sequence(inner, &items, &failure, path);
        } else {
            let item = embedded_item(&bytes);
            proof {
                if item is Ok {
                    payload_of_a_nan_is_irrelevant_to_a_type(m, *inner, item->Ok_0@, at, depth);
                }
            }
            self.check_embedded(inner, &item, path);
        }
    }

    /// Checks what was read from embedded CBOR against its type.
    pub fn check_embedded(
        &mut self,
        ty: &TypeRef,
        read: &Result<Value, String>,
        path: &mut Vec<PathSeg>,
    )
        ensures
            final(path)@ == old(path)@,
            old(self).reports(
                *final(self),
                rules::embedded_errors(
                    *old(self).module,
                    *ty,
                    match *read {
                        Ok(item) => Ok(item@),
                        Err(failure) => Err(failure@),
                    },
                    path_view(old(path)@),
                    old(self).depth as nat,
                ),
            ),
        decreases MAX_DEPTH - old(self).depth, 3int, *old(self).module, 0int,
    {
        match read {
            Ok(item) => self.check_typeref(ty, item, path),
            Err(failure) => self.err(
                path,
                concat2("embedded CBOR did not decode: ", failure.as_str()),
            ),
        }
    }

    /// Checks what was read from an embedded CBOR sequence, each item against the
    /// same type.
    pub fn check_sequence(
        &mut self,
        ty: &TypeRef,
        items: &Vec<Value>,
        failure: &Option<String>,
        path: &mut Vec<PathSeg>,
    )
        ensures
            final(path)@ == old(path)@,
            old(self).reports(
                *final(self),
                rules::sequence_errors(
                    *old(self).module,
                    *ty,
                    (items_view(*items), text_view(*failure)),
                    path_view(old(path)@),
                    old(self).depth as nat,
                ),
            ),
        decreases MAX_DEPTH - old(self).depth, 3int, *old(self).module, 0int,
    {
        assert(items_view(*items).len() == items@.len());
        self.check_items(ty, items, path);
        let ghost between = *self;
        self.err_any(
            path,
            match failure {
                Some(failure) => Some(
                    concat4(
                        "embedded CBOR sequence item ",
                        decimal_text(items.len() as i128).as_str(),
                        " did not decode: ",
                        failure.as_str(),
                    ),
                ),
                None => None,
            },
        );
        proof {
            let m = *between.module;
            let at = path_view(path@);
            let depth = between.depth as nat;
            let read = (items_view(*items), text_view(*failure));
            Self::lemma_reports_join(
                *old(self),
                between,
                *self,
                rules::items_errors(m, *ty, read.0, at, depth, read.0.len()),
                rules::report_any(at, rules::sequence_failure(read)),
            );
        }
    }
}

/// The bytes that a text value encodes, decoded only where they matter.
fn encoded_where(needed: bool, value: &Value) -> (bytes: Option<Vec<u8>>)
    ensures
        needed ==> bytes_view(bytes) == rules::encoded_bytes(value@),
{
    if needed {
        encoded_bytes(value)
    } else {
        None
    }
}

fn int_bound(bound: Option<i64>) -> (wide: Option<i128>)
    ensures
        bound_view(wide) == rules::int_bound(bound),
{
    match bound {
        Some(n) => Some(n as i128),
        None => None,
    }
}

fn uint_bound(bound: Option<u64>) -> (wide: Option<i128>)
    ensures
        bound_view(wide) == rules::uint_bound(bound),
{
    match bound {
        Some(n) => Some(n as i128),
        None => None,
    }
}

/// Once a variant matches, no later one changes the outcome.
proof fn lemma_variant_found(
    m: IrModule,
    variants: Seq<EnumVariant>,
    v: ValueView,
    path: Seq<SegView>,
    depth: nat,
    found: nat,
    n: nat,
)
    requires
        found <= n,
        rules::failed_variants(m, variants, v, path, depth, found) is None,
    ensures
        rules::failed_variants(m, variants, v, path, depth, n) is None,
    decreases n,
{
    if found < n {
        lemma_variant_found(m, variants, v, path, depth, found, (n - 1) as nat);
    }
}

/// Once an alternative matches, no later one changes the outcome.
proof fn lemma_alternative_found(
    m: IrModule,
    variants: Vec<TypeRef>,
    v: ValueView,
    path: Seq<SegView>,
    depth: nat,
    found: nat,
    n: nat,
)
    requires
        found <= n <= variants@.len(),
        rules::failed_alternatives(m, variants, v, path, depth, found) is None,
    ensures
        rules::failed_alternatives(m, variants, v, path, depth, n) is None,
    decreases n,
{
    if found < n {
        lemma_alternative_found(m, variants, v, path, depth, found, (n - 1) as nat);
    }
}

/// Validates a value against the rule of that name.
pub fn validate_named(module: &IrModule, name: &str, value: &Value) -> (result: Result<
    (),
    Vec<ValidationError>,
>)
    ensures
        rules::document_errors(*module, name@, value@) == (match result {
            Ok(()) => seq![],
            Err(errors) => errors_view(errors@),
        }),
        result is Ok <==> document_conforms(*module, name@, value@),
{
    proof {
        report_is_empty_iff_conforming(*module, name@, value@);
    }
    if name.is_empty() {
        let mut errors: Vec<ValidationError> = Vec::new();
        errors.push(
            ValidationError::new(
                Vec::new(),
                "no root type: the schema defines no rules, or none was given via --type",
            ),
        );
        assert(path_view(errors@[0].path@) =~= seq![]);
        assert(errors_view(errors@) =~= rules::document_errors(*module, name@, value@));
        return Err(errors);
    }
    let def = match module.get(name) {
        Some(def) => def,
        None => {
            let message = concat3("unknown type '", name, "' (not defined in this schema)");
            let mut errors: Vec<ValidationError> = Vec::new();
            errors.push(ValidationError::new(Vec::new(), message));
            assert(path_view(errors@[0].path@) =~= seq![]);
            assert(errors_view(errors@) =~= rules::document_errors(*module, name@, value@));
            return Err(errors);
        },
    };
    let mut ctx = Ctx::new(module);
    let mut path: Vec<PathSeg> = Vec::new();
    let ghost start = ctx.log();
    assert(path_view(path@) =~= seq![]);
    ctx.check_def(def, value, &mut path);
    let ghost found = rules::document_errors(*module, name@, value@);
    assert(start + found =~= found);
    if ctx.errors.len() == 0 {
        assert(found =~= seq![]);
        Ok(())
    } else {
        Err(ctx.errors)
    }
}

} // verus!
