use cddlc_validate::engine::{validate_named, Ctx};
use cddlc_validate::error::PathSeg;
use cddlc_validate::ir::{
    AliasDef, ArrayDef, CborTag, Constraint, EnumDef, EnumVariant, FieldDef, FieldKey, IrModule,
    LiteralValue, Occurrence, Primitive, StructDef, TableDef, TypeDef, TypeRef,
};
use cddlc_validate::value::integer_to_value;
use cddlc_validate::{validate, Double, ValidationError, Value};

fn double(number: f64) -> Double {
    Double::from_bits(number.to_bits())
}

fn text(s: &str) -> Value {
    Value::Text(s.to_owned())
}

fn prim(p: Primitive) -> TypeRef {
    TypeRef::Primitive(p)
}

fn named(name: &str) -> TypeRef {
    TypeRef::Named(name.to_owned())
}

fn alias(name: &str, ty: TypeRef, constraints: Vec<Constraint>) -> TypeDef {
    TypeDef::Alias(AliasDef { name: name.to_owned(), ty, constraints, tagged: None })
}

fn keyed(name: &str, key: FieldKey, ty: TypeRef, required: bool) -> FieldDef {
    FieldDef { name: name.to_owned(), key, ty, required, constraints: vec![] }
}

fn field(name: &str, ty: TypeRef, required: bool) -> FieldDef {
    keyed(name, FieldKey::Text(name.to_owned()), ty, required)
}

fn structure(name: &str, fields: Vec<FieldDef>) -> TypeDef {
    TypeDef::Struct(StructDef { name: name.to_owned(), fields, tagged: None })
}

fn array(name: &str, element: TypeRef, occurrence: Occurrence) -> TypeDef {
    TypeDef::Array(ArrayDef { name: name.to_owned(), element, occurrence, tagged: None })
}

fn module(root: &str, types: Vec<TypeDef>) -> IrModule {
    IrModule { root: root.to_owned(), types }
}

fn json(s: &str) -> Value {
    let document: serde_json::Value = serde_json::from_str(s).unwrap();
    Value::from(document)
}

fn rendered(result: Result<(), Vec<ValidationError>>) -> Vec<String> {
    match result {
        Ok(()) => vec![],
        Err(errors) => errors.iter().map(|e| e.render()).collect(),
    }
}

fn report(m: &IrModule, value: &Value) -> Vec<String> {
    rendered(validate(m, None, value))
}

fn one_rule(ty: TypeRef, constraints: Vec<Constraint>) -> IrModule {
    module("it", vec![alias("it", ty, constraints)])
}

// Paths.

#[test]
fn paths_are_rendered() {
    let at = |path: Vec<PathSeg>| ValidationError::new(path, "bad");
    assert_eq!(at(vec![]).path_string(), "$");
    assert_eq!(at(vec![]).render(), "$: bad");
    let path = vec![
        PathSeg::Field("readings".to_owned()),
        PathSeg::Index(3),
        PathSeg::Key("k".to_owned()),
        PathSeg::Variant("v".to_owned()),
    ];
    assert_eq!(path[0].render(), ".readings");
    assert_eq!(path[1].render(), "[3]");
    assert_eq!(path[2].render(), "{k}");
    assert_eq!(path[3].render(), "<v>");
    let error = at(path);
    assert_eq!(error.path_string(), "$.readings[3]{k}<v>");
    assert_eq!(error.render(), "$.readings[3]{k}<v>: bad");
    assert_eq!(error.clone(), error);
    assert_eq!(ValidationError::new(vec![], "bad".to_owned()).message, "bad");
}

// Choosing the rule.

#[test]
fn the_root_type_is_the_default() {
    let m = module("b", vec![
        alias("a", prim(Primitive::Tstr), vec![]),
        alias("b", prim(Primitive::Uint), vec![]),
    ]);
    assert_eq!(validate(&m, None, &Value::Uint(1)), Ok(()));
    assert_eq!(validate(&m, Some("a"), &text("x")), Ok(()));
    assert_eq!(rendered(validate(&m, Some("a"), &Value::Uint(1))), ["$: expected tstr, found uint"]);
    assert_eq!(validate_named(&m, "b", &Value::Uint(1)), Ok(()));
}

#[test]
fn a_rule_must_be_named_and_defined() {
    let empty = module("", vec![]);
    assert_eq!(
        report(&empty, &Value::Null),
        ["$: no root type: the schema defines no rules, or none was given via --type"],
    );
    assert_eq!(
        rendered(validate(&empty, Some("x"), &Value::Null)),
        ["$: unknown type 'x' (not defined in this schema)"],
    );
    let dangling = one_rule(named("gone"), vec![]);
    assert_eq!(
        report(&dangling, &Value::Null),
        ["$: internal error: type 'gone' is referenced but not defined"],
    );
}

#[test]
fn rules_are_found_by_name() {
    let m = module("a", vec![
        alias("a", prim(Primitive::Tstr), vec![]),
        structure("s", vec![]),
        array("xs", prim(Primitive::Any), Occurrence::ZeroOrMore),
        TypeDef::Table(TableDef { name: "t".to_owned() }),
        TypeDef::Enum(EnumDef { name: "e".to_owned(), variants: vec![], tagged: None }),
        alias("a", prim(Primitive::Uint), vec![]),
    ]);
    for name in ["a", "s", "xs", "t", "e"] {
        assert_eq!(m.get(name).unwrap().name(), name);
    }
    // The first of two rules with one name counts.
    assert_eq!(m.get("a"), Some(&m.types[0]));
    assert_eq!(m.get("b"), None);
    assert_eq!(m.get(""), None);
}

#[test]
fn tables_are_not_supported() {
    let m = module("t", vec![TypeDef::Table(TableDef { name: "t".to_owned() })]);
    assert_eq!(
        report(&m, &Value::Mapping(vec![])),
        ["$: 't' uses a CDDL table ({* K => V}), which this validator does not yet support"],
    );
}

// Structs and arrays.

#[test]
fn struct_failures_are_reported_in_order() {
    let m = module("s", vec![structure("s", vec![
        field("a", prim(Primitive::Uint), true),
        field("b", prim(Primitive::Uint), true),
        field("c", prim(Primitive::Uint), false),
    ])]);
    assert_eq!(report(&m, &json(r#"{"a":1,"b":2}"#)), Vec::<String>::new());
    assert_eq!(
        report(&m, &json(r#"{"b":"x","c":"y","d":1,"e":2}"#)),
        [
            "$: missing required field 'a'",
            "$.b: expected uint, found text",
            "$.c: expected uint, found text",
            "$: unknown field 'd'",
            "$: unknown field 'e'",
        ],
    );
    assert_eq!(
        report(&m, &Value::Null),
        ["$: expected a map for struct 's', found null"],
    );
}

#[test]
fn the_first_entry_of_a_key_counts() {
    let m = module("s", vec![structure("s", vec![
        keyed("n", FieldKey::Uint(1), prim(Primitive::Bool), true),
        keyed("m", FieldKey::Int(-1), prim(Primitive::Bool), true),
    ])]);
    let good = Value::Mapping(vec![
        (Value::Int(1), Value::Bool(true)),
        (Value::Uint(1), Value::Null),
        (Value::Int(-1), Value::Bool(true)),
    ]);
    assert_eq!(report(&m, &good), Vec::<String>::new());
    let bad = Value::Mapping(vec![
        (Value::Uint(1), Value::Null),
        (Value::Int(1), Value::Bool(true)),
        (Value::Int(2), Value::Bool(true)),
    ]);
    assert_eq!(
        report(&m, &bad),
        ["$.n: expected bool, found null", "$: missing required field 'm'", "$: unknown field int"],
    );
}

#[test]
fn the_order_of_entries_does_not_matter() {
    let m = module("s", vec![structure("s", vec![
        field("a", prim(Primitive::Uint), true),
        field("b", prim(Primitive::Uint), true),
    ])]);
    let entries = vec![
        (text("x"), Value::Null),
        (text("b"), text("no")),
        (Value::Uint(3), Value::Null),
        (text("a"), Value::Uint(1)),
    ];
    let mut reversed = entries.clone();
    reversed.reverse();
    let mut of_entries = report(&m, &Value::Mapping(entries));
    let mut of_reversed = report(&m, &Value::Mapping(reversed));
    assert_eq!(of_entries[1], "$: unknown field 'x'");
    assert_eq!(of_reversed[1], "$: unknown field uint");
    of_entries.sort();
    of_reversed.sort();
    assert_eq!(of_entries.len(), 3);
    assert_eq!(of_entries, of_reversed);
}

#[test]
fn array_failures_name_their_index() {
    let m = module("xs", vec![array(
        "xs",
        prim(Primitive::Uint),
        Occurrence::Bounded { min: 1, max: Some(2) },
    )]);
    assert_eq!(
        report(&m, &json(r#"[1,"a",-2]"#)),
        [
            "$: 'xs' allows at most 2 element(s), found 3",
            "$[1]: expected uint, found text",
            "$[2]: expected uint, found int",
        ],
    );
    assert_eq!(report(&m, &json("[]")), ["$: 'xs' requires at least 1 element(s), found 0"]);
    assert_eq!(report(&m, &json("7")), ["$: expected an array for 'xs', found uint"]);
}

#[test]
fn failures_carry_the_path_of_their_value() {
    let inner = structure("inner", vec![field("x", prim(Primitive::Uint), true)]);
    let at_root = module("inner", vec![inner]);
    let bad = json(r#"{"x":"no","y":1}"#);
    assert_eq!(
        report(&at_root, &bad),
        ["$.x: expected uint, found text", "$: unknown field 'y'"],
    );
    let below = module("outer", vec![
        structure("outer", vec![field("items", named("items"), true)]),
        array("items", named("inner"), Occurrence::ZeroOrMore),
        structure("inner", vec![field("x", prim(Primitive::Uint), true)]),
    ]);
    assert_eq!(
        report(&below, &json(r#"{"items":[{"x":1},{"x":"no","y":1}]}"#)),
        ["$.items[1].x: expected uint, found text", "$.items[1]: unknown field 'y'"],
    );
}

// Choices and enums.

#[test]
fn a_failed_choice_is_one_failure() {
    let ty = TypeRef::Choice(vec![prim(Primitive::Uint), named("s")]);
    let m = module("it", vec![
        alias("it", ty, vec![]),
        structure("s", vec![
            field("a", prim(Primitive::Uint), true),
            field("b", prim(Primitive::Uint), true),
        ]),
    ]);
    assert_eq!(report(&m, &Value::Uint(1)), Vec::<String>::new());
    assert_eq!(report(&m, &json(r#"{"a":1,"b":2}"#)), Vec::<String>::new());
    assert_eq!(
        report(&m, &json("{}")),
        ["$: value did not match any alternative: expected uint, found map | missing required field 'a'"],
    );
    let none = one_rule(TypeRef::Choice(vec![]), vec![]);
    assert_eq!(report(&none, &Value::Null), ["$: value did not match any alternative: "]);
}

#[test]
fn a_failed_enum_is_one_failure() {
    let variant = |name: &str, ty: TypeRef, literal| EnumVariant {
        name: name.to_owned(),
        ty,
        constraints: vec![Constraint::Eq(literal)],
    };
    let m = module("e", vec![TypeDef::Enum(EnumDef {
        name: "e".to_owned(),
        variants: vec![
            variant("one", prim(Primitive::Uint), LiteralValue::Uint(1)),
            variant("word", prim(Primitive::Tstr), LiteralValue::Text("w".to_owned())),
        ],
        tagged: None,
    })]);
    assert_eq!(report(&m, &Value::Uint(1)), Vec::<String>::new());
    assert_eq!(report(&m, &text("w")), Vec::<String>::new());
    assert_eq!(
        report(&m, &Value::Uint(2)),
        ["$: value matched no variant of 'e' [one: expected value equal to 1, found uint] \
          [word: expected tstr, found uint]"],
    );
}

#[test]
fn alternatives_are_tried_in_isolation() {
    let m = one_rule(prim(Primitive::Any), vec![]);
    let mut ctx = Ctx::new(&m);
    let path = vec![PathSeg::Index(1)];
    let errors = ctx.try_check(&prim(Primitive::Uint), &Value::Null, &path);
    assert_eq!(errors.len(), 1);
    assert_eq!(errors[0].render(), "$[1]: expected uint, found null");
    let variant = EnumVariant {
        name: "v".to_owned(),
        ty: prim(Primitive::Any),
        constraints: vec![Constraint::Ne(LiteralValue::Null)],
    };
    let errors = ctx.try_check_variant(&variant, &Value::Null, &path);
    assert_eq!(errors.len(), 1);
    assert_eq!(errors[0].render(), "$[1]: value must not equal null");
    assert!(ctx.errors.is_empty());
    ctx.check_primitive(Primitive::Bool, &Value::Null, &path);
    assert_eq!(ctx.errors.len(), 1);
    assert_eq!(ctx.errors[0].render(), "$[1]: expected bool, found null");
}

// Tags.

fn tagged_rules(tagged: Option<CborTag>) -> Vec<IrModule> {
    let name = || "it".to_owned();
    let variants = vec![EnumVariant {
        name: "any".to_owned(),
        ty: prim(Primitive::Uint),
        constraints: vec![],
    }];
    vec![
        module("it", vec![TypeDef::Struct(StructDef { name: name(), fields: vec![], tagged })]),
        module("it", vec![TypeDef::Enum(EnumDef { name: name(), variants, tagged })]),
        module("it", vec![TypeDef::Array(ArrayDef {
            name: name(),
            element: prim(Primitive::Uint),
            occurrence: Occurrence::OneOrMore,
            tagged,
        })]),
        module("it", vec![TypeDef::Alias(AliasDef {
            name: name(),
            ty: prim(Primitive::Uint),
            constraints: vec![Constraint::SizeExact(1)],
            tagged,
        })]),
    ]
}

#[test]
fn values_without_a_tag_degrade() {
    let documents = [Value::Uint(1), Value::Uint(700), json("{}"), json("[]"), json("[1]")];
    let plain = tagged_rules(None);
    let tagged = tagged_rules(Some(CborTag(9)));
    for (without, with) in plain.iter().zip(tagged.iter()) {
        for document in &documents {
            assert_eq!(report(without, document), report(with, document));
            let wrapped = Value::Tag(9, Box::new(document.clone()));
            assert_eq!(report(with, &wrapped), report(without, document));
        }
        let other = Value::Tag(8, Box::new(Value::Uint(1)));
        assert_eq!(report(with, &other), ["$: expected CBOR tag 9, found tag 8"]);
    }
}

#[test]
fn tagged_types_in_place() {
    let m = one_rule(TypeRef::Tagged(CborTag(1), Box::new(prim(Primitive::Uint))), vec![]);
    assert_eq!(report(&m, &Value::Uint(5)), Vec::<String>::new());
    assert_eq!(report(&m, &text("a")), ["$: expected uint, found text"]);
    assert_eq!(report(&m, &Value::Tag(1, Box::new(Value::Uint(5)))), Vec::<String>::new());
    assert_eq!(
        report(&m, &Value::Tag(1, Box::new(text("a")))),
        ["$: expected uint, found text"],
    );
    assert_eq!(
        report(&m, &Value::Tag(2, Box::new(Value::Uint(5)))),
        ["$: expected CBOR tag 1, found tag 2"],
    );
}

// The limit on nesting.

fn chain(length: usize) -> IrModule {
    let mut types = Vec::new();
    for i in 1..length {
        types.push(alias(&format!("a{i}"), named(&format!("a{}", i + 1)), vec![]));
    }
    types.push(alias(&format!("a{length}"), prim(Primitive::Uint), vec![]));
    module("a1", types)
}

#[test]
fn nesting_is_limited() {
    assert_eq!(report(&chain(1), &Value::Uint(1)), Vec::<String>::new());
    assert_eq!(report(&chain(128), &Value::Uint(1)), Vec::<String>::new());
    assert_eq!(
        report(&chain(129), &Value::Uint(1)),
        ["$: exceeded maximum nesting depth (128)"],
    );
    // What conforms from the top of a chain conforms from further down it.
    let m = chain(129);
    assert_eq!(validate(&m, Some("a2"), &Value::Uint(1)), Ok(()));
    assert_eq!(validate(&m, Some("a100"), &Value::Uint(1)), Ok(()));
}

#[test]
fn rules_are_entered_up_to_the_limit() {
    let m = one_rule(prim(Primitive::Any), vec![]);
    let mut ctx = Ctx::new(&m);
    let path = vec![PathSeg::Index(2)];
    for depth in 0..128 {
        assert_eq!(ctx.depth, depth);
        assert!(ctx.guard_depth(&path));
    }
    assert!(ctx.errors.is_empty());
    assert!(!ctx.guard_depth(&path));
    assert_eq!(ctx.depth, 128);
    assert_eq!(rendered(Err(ctx.errors)), ["$[2]: exceeded maximum nesting depth (128)"]);
}

#[test]
fn circular_aliases_end_at_the_limit() {
    let m = one_rule(named("it"), vec![]);
    for value in [Value::Null, Value::Uint(1), json("[]"), json("{}")] {
        assert_eq!(report(&m, &value), ["$: exceeded maximum nesting depth (128)"]);
    }
}

#[test]
fn circular_structs_follow_the_document() {
    let m = module("node", vec![structure("node", vec![field("next", named("node"), false)])]);
    assert_eq!(report(&m, &json(r#"{"next":{"next":{}}}"#)), Vec::<String>::new());
    assert_eq!(
        report(&m, &json(r#"{"next":{"next":1}}"#)),
        ["$.next.next: expected a map for struct 'node', found uint"],
    );
}

#[test]
fn a_type_comes_down_to_a_primitive() {
    let m = module("a", vec![
        alias("a", named("b"), vec![]),
        alias("b", TypeRef::Tagged(CborTag(1), Box::new(prim(Primitive::Bstr))), vec![]),
        alias("loop", named("loop"), vec![]),
        structure("s", vec![]),
    ]);
    let ctx = Ctx::new(&m);
    assert_eq!(ctx.base_primitive(&prim(Primitive::Int), 0), Some(Primitive::Int));
    assert_eq!(ctx.base_primitive(&named("a"), 0), Some(Primitive::Bstr));
    assert_eq!(ctx.base_primitive(&named("loop"), 0), None);
    assert_eq!(ctx.base_primitive(&named("s"), 0), None);
    assert_eq!(ctx.base_primitive(&named("gone"), 0), None);
    assert_eq!(ctx.base_primitive(&TypeRef::Choice(vec![prim(Primitive::Int)]), 0), None);
    assert_eq!(ctx.base_primitive(&prim(Primitive::Int), 129), None);
}

// Constraints.

#[test]
fn constraints_are_checked_one_by_one() {
    let m = one_rule(prim(Primitive::Uint), vec![
        Constraint::SizeExact(1),
        Constraint::SizeRange { min: None, max: Some(2) },
        Constraint::ValueRangeInt { min: None, max: Some(300), inclusive: true },
        Constraint::ValueRangeUint { min: Some(1000), max: None, inclusive: true },
        Constraint::ValueRangeF64 { min: None, max: Some(double(299.5)), inclusive: false },
        Constraint::Eq(LiteralValue::Uint(1)),
        Constraint::Ne(LiteralValue::Int(500)),
        Constraint::Regexp { pattern: "5".to_owned() },
        Constraint::CborEmbedded(Box::new(prim(Primitive::Any))),
        Constraint::CborSeq(Box::new(prim(Primitive::Any))),
        Constraint::Default(LiteralValue::Uint(1)),
    ]);
    assert_eq!(
        report(&m, &Value::Uint(500)),
        [
            "$: value 500 does not fit in 1 byte(s)",
            "$: value 500 is above the maximum 300",
            "$: value 500 is below the minimum 1000",
            "$: value 500 is above the maximum 299.5",
            "$: expected value equal to 1, found uint",
            "$: value must not equal 500",
            "$: .regexp constraint does not apply to uint",
            "$: .cbor/.cborseq constraint does not apply to uint",
            "$: .cbor/.cborseq constraint does not apply to uint",
        ],
    );
}

#[test]
fn field_constraints_are_reported_at_the_field() {
    let mut name = field("name", prim(Primitive::Tstr), true);
    name.constraints.push(Constraint::SizeRange { min: Some(2), max: Some(3) });
    let m = module("s", vec![structure("s", vec![name])]);
    assert_eq!(report(&m, &json(r#"{"name":"abc"}"#)), Vec::<String>::new());
    assert_eq!(
        report(&m, &json(r#"{"name":"a"}"#)),
        ["$.name: .size: expected at least 2, found 1"],
    );
    assert_eq!(
        report(&m, &json(r#"{"name":"abcd"}"#)),
        ["$.name: .size: expected at most 3, found 4"],
    );
}

#[test]
fn a_default_changes_nothing() {
    let range = || Constraint::ValueRangeUint { min: Some(1), max: Some(2), inclusive: false };
    let plain = one_rule(prim(Primitive::Uint), vec![range()]);
    let first = one_rule(prim(Primitive::Uint), vec![
        Constraint::Default(LiteralValue::Uint(7)),
        range(),
    ]);
    let last = one_rule(prim(Primitive::Uint), vec![
        range(),
        Constraint::Default(LiteralValue::Uint(7)),
    ]);
    for document in [Value::Uint(1), Value::Uint(2), Value::Uint(7), text("x")] {
        assert_eq!(report(&plain, &document), report(&first, &document));
        assert_eq!(report(&plain, &document), report(&last, &document));
    }
    assert_eq!(report(&plain, &Value::Uint(1)), Vec::<String>::new());
    assert_eq!(report(&plain, &Value::Uint(2)), ["$: value 2 is above the maximum 2"]);
}

#[test]
fn any_accepts_every_value() {
    let m = one_rule(prim(Primitive::Any), vec![]);
    for document in [Value::Null, Value::Uint(1), text("x"), Value::Bytes(vec![]), json("{}")] {
        assert_eq!(report(&m, &document), Vec::<String>::new());
    }
    let tagged = Value::Tag(3, Box::new(Value::Null));
    assert_eq!(report(&m, &tagged), Vec::<String>::new());
}

#[test]
fn undefined_accepts_null() {
    let m = one_rule(prim(Primitive::Undefined), vec![]);
    assert_eq!(report(&m, &Value::Null), Vec::<String>::new());
    assert_eq!(report(&m, &Value::Bool(false)), ["$: expected undefined, found bool"]);
}

#[test]
fn text_stands_for_the_bytes_it_encodes() {
    let constraints = || vec![
        Constraint::SizeExact(2),
        Constraint::Eq(LiteralValue::Bytes(vec![0x18, 0x2a])),
        Constraint::Ne(LiteralValue::Bytes(vec![0x01])),
        Constraint::CborEmbedded(Box::new(prim(Primitive::Uint))),
        Constraint::CborSeq(Box::new(prim(Primitive::Uint))),
    ];
    for constraint in constraints() {
        let m = one_rule(prim(Primitive::Bstr), vec![constraint]);
        // 0x18 0x2a, 0x01, and 0x61 0x61: 42, 1 and "a".
        for (word, bytes) in [("GCo", vec![0x18, 0x2a]), ("AQ", vec![0x01]), ("YWE", vec![0x61, 0x61])] {
            assert_eq!(
                validate(&m, None, &text(word)).is_ok(),
                validate(&m, None, &Value::Bytes(bytes)).is_ok(),
                "{m:?} on {word}",
            );
        }
        assert_eq!(report(&m, &Value::Bytes(vec![0x18, 0x2a])), Vec::<String>::new());
    }
}

#[test]
fn embedded_items_are_checked() {
    let m = one_rule(prim(Primitive::Bstr), vec![Constraint::CborEmbedded(Box::new(prim(
        Primitive::Uint,
    )))]);
    assert_eq!(report(&m, &Value::Bytes(vec![0x05])), Vec::<String>::new());
    assert_eq!(report(&m, &Value::Bytes(vec![0x20])), ["$: expected uint, found int"]);
    let nothing: &[u8] = &[];
    let failure = ciborium::from_reader::<ciborium::Value, _>(nothing).unwrap_err().to_string();
    assert_eq!(
        report(&m, &Value::Bytes(vec![])),
        [format!("$: embedded CBOR did not decode: {failure}")],
    );
    assert_eq!(
        report(&m, &text("!")),
        [
            "$: expected bstr, found text",
            "$: expected base64url-encoded bytes for embedded CBOR",
        ],
    );
}

#[test]
fn embedded_sequences_are_checked() {
    let m = one_rule(prim(Primitive::Bstr), vec![Constraint::CborSeq(Box::new(prim(
        Primitive::Uint,
    )))]);
    assert_eq!(report(&m, &Value::Bytes(vec![])), Vec::<String>::new());
    assert_eq!(report(&m, &Value::Bytes(vec![0x05, 0x06])), Vec::<String>::new());
    let cut: &[u8] = &[0x18];
    let failure = ciborium::from_reader::<ciborium::Value, _>(cut).unwrap_err().to_string();
    assert_eq!(
        report(&m, &Value::Bytes(vec![0x05, 0x20, 0x06, 0x18])),
        [
            "$[1]: expected uint, found int".to_owned(),
            format!("$: embedded CBOR sequence item 3 did not decode: {failure}"),
        ],
    );
}

#[test]
fn read_outcomes_are_checked_as_given() {
    let m = one_rule(prim(Primitive::Any), vec![]);
    let mut ctx = Ctx::new(&m);
    let mut path = vec![];
    ctx.check_embedded(&prim(Primitive::Uint), &Err("odd".to_owned()), &mut path);
    ctx.check_embedded(&prim(Primitive::Uint), &Ok(Value::Null), &mut path);
    let items = vec![Value::Uint(1), Value::Null];
    ctx.check_sequence(&prim(Primitive::Uint), &items, &Some("odd".to_owned()), &mut path);
    assert_eq!(
        rendered(Err(ctx.errors)),
        [
            "$: embedded CBOR did not decode: odd",
            "$: expected uint, found null",
            "$[1]: expected uint, found null",
            "$: embedded CBOR sequence item 2 did not decode: odd",
        ],
    );
    assert!(path.is_empty());
}

// Values and where they come from.

#[test]
fn json_documents_become_values() {
    assert_eq!(json("null"), Value::Null);
    assert_eq!(json("true"), Value::Bool(true));
    assert_eq!(json("18446744073709551615"), Value::Uint(u64::MAX));
    assert_eq!(json("-9223372036854775808"), Value::Int(i64::MIN));
    assert_eq!(json("18446744073709551616"), Value::Float(double(18446744073709551616.0)));
    assert_eq!(json("1.0"), Value::Float(double(1.0)));
    assert_eq!(json(r#""x""#), text("x"));
    assert_eq!(
        json(r#"[1,[{"a":"AQID","b":null}]]"#),
        Value::Array(vec![
            Value::Uint(1),
            Value::Array(vec![Value::Mapping(vec![
                (text("a"), text("AQID")),
                (text("b"), Value::Null),
            ])]),
        ]),
    );
}

#[test]
fn json_values_hold_neither_tags_nor_bytes() {
    fn plain(value: &Value) -> bool {
        match value {
            Value::Tag(_, _) | Value::Bytes(_) => false,
            Value::Array(items) => items.iter().all(plain),
            Value::Mapping(entries) => {
                entries.iter().all(|(k, v)| matches!(k, Value::Text(_)) && plain(v))
            }
            _ => true,
        }
    }
    assert!(plain(&json(r#"{"a":[1,-2,2.5,"AQID",null,{"b":true}],"c":{}}"#)));
    assert!(!plain(&Value::Array(vec![Value::Bytes(vec![1])])));
}

#[test]
fn signed_integers_are_negative() {
    fn settled(value: &Value) -> bool {
        match value {
            Value::Int(n) => *n < 0,
            Value::Array(items) => items.iter().all(settled),
            Value::Mapping(entries) => entries.iter().all(|(k, v)| settled(k) && settled(v)),
            Value::Tag(_, inner) => settled(inner),
            _ => true,
        }
    }
    assert!(settled(&json(r#"[0,-0,1,-1,{"a":[9223372036854775807,-9223372036854775808]}]"#)));
    assert!(settled(&Value::from(serde_json::Value::from(5i64))));
    assert_eq!(Value::from(serde_json::Value::from(5i64)), Value::Uint(5));
    let integer = |n: i64| ciborium::Value::Integer(n.into());
    assert!(settled(&Value::from(ciborium::Value::Map(vec![
        (integer(0), ciborium::Value::Tag(1, Box::new(integer(7)))),
        (integer(-1), ciborium::Value::Array(vec![integer(i64::MAX), integer(i64::MIN)])),
    ]))));
}

#[test]
fn cbor_items_become_values() {
    let item = ciborium::Value::Map(vec![
        (ciborium::Value::Integer(1.into()), ciborium::Value::Integer((-7).into())),
        (ciborium::Value::Text("f".into()), ciborium::Value::Float(-2.5)),
        (ciborium::Value::Null, ciborium::Value::Array(vec![
            ciborium::Value::Bool(true),
            ciborium::Value::Bytes(vec![1, 2]),
        ])),
        (ciborium::Value::Bool(false), ciborium::Value::Tag(
            99,
            Box::new(ciborium::Value::Text("t".into())),
        )),
    ]);
    let value = Value::Mapping(vec![
        (Value::Uint(1), Value::Int(-7)),
        (text("f"), Value::Float(double(-2.5))),
        (Value::Null, Value::Array(vec![Value::Bool(true), Value::Bytes(vec![1, 2])])),
        (Value::Bool(false), Value::Tag(99, Box::new(text("t")))),
    ]);
    assert_eq!(Value::from_cbor(&item), value);
    assert_eq!(Value::from(item), value);
    assert_eq!(value.clone(), value);
}

#[test]
fn floats_keep_their_bits() {
    for bits in [0x7ff8_0000_0000_0007u64, 0xfff8_0000_0000_0000, 0x8000_0000_0000_0000, 1] {
        match Value::from(ciborium::Value::Float(f64::from_bits(bits))) {
            Value::Float(number) => assert_eq!(number.bits, bits),
            other => panic!("{other:?}"),
        }
    }
}

#[test]
fn no_report_shows_the_payload_of_a_nan() {
    let constraints = vec![
        Constraint::ValueRangeInt { min: Some(1), max: None, inclusive: true },
        Constraint::ValueRangeF64 {
            min: Some(double(1.0)),
            max: Some(double(2.0)),
            inclusive: false,
        },
        Constraint::Eq(LiteralValue::Float(double(f64::NAN))),
        Constraint::Ne(LiteralValue::Float(double(f64::NAN))),
        Constraint::SizeExact(1),
    ];
    let m = module("it", vec![
        array("it", named("x"), Occurrence::ZeroOrMore),
        alias("x", prim(Primitive::Float), constraints),
    ]);
    let of = |bits| Value::Array(vec![Value::Float(Double::from_bits(bits))]);
    let quiet = report(&m, &of(0x7ff8_0000_0000_0000));
    assert_eq!(report(&m, &of(0xfff8_0000_0000_0007)), quiet);
    assert_eq!(
        quiet,
        [
            "$[0]: value 0 is below the minimum 1",
            "$[0]: expected value equal to NaN, found float",
            "$[0]: .size constraint does not apply to float",
        ],
    );
    // 0xf9 0x7e 0x01 and 0xfb 0x7f 0xf8 ... 0x07 are NaNs.
    let m = one_rule(prim(Primitive::Bstr), vec![Constraint::CborSeq(Box::new(prim(
        Primitive::Uint,
    )))]);
    let bytes = vec![0xf9, 0x7e, 0x01, 0xfb, 0x7f, 0xf8, 0, 0, 0, 0, 0, 7];
    assert_eq!(
        report(&m, &Value::Bytes(bytes)),
        ["$[0]: expected uint, found float", "$[1]: expected uint, found float"],
    );
}

#[test]
fn cbor_integers_keep_their_value() {
    let largest = ciborium::Value::Integer(u64::MAX.into());
    assert_eq!(Value::from(largest), Value::Uint(u64::MAX));
    let smallest = ciborium::Value::Integer(i64::MIN.into());
    assert_eq!(Value::from(smallest), Value::Int(i64::MIN));
    // -2^63 - 1 and -2^64 are CBOR integers that no 64-bit integer holds.
    let beyond: &[u8] = &[0x3b, 0x80, 0, 0, 0, 0, 0, 0, 0];
    let item: ciborium::Value = ciborium::from_reader(beyond).unwrap();
    assert_eq!(Value::from(item), Value::Float(double(-9223372036854775809.0)));
    let furthest: &[u8] = &[0x3b, 0xff, 0xff, 0xff, 0xff, 0xff, 0xff, 0xff, 0xff];
    let item: ciborium::Value = ciborium::from_reader(furthest).unwrap();
    assert_eq!(Value::from(item), Value::Float(double(-18446744073709551616.0)));

    assert_eq!(integer_to_value(0), Value::Uint(0));
    assert_eq!(integer_to_value(-1), Value::Int(-1));
    assert_eq!(integer_to_value(1 << 64), Value::Float(double(18446744073709551616.0)));
    assert_eq!(integer_to_value(i128::MIN), Value::Float(double(i128::MIN as f64)));
}

#[test]
fn equal_documents_have_equal_reports() {
    let m = module("s", vec![structure("s", vec![
        field("id", prim(Primitive::Uint), true),
        field("list", named("list"), true),
    ]), array("list", prim(Primitive::Float), Occurrence::OneOrMore)]);
    let documents = [
        (r#"{"id":1,"list":[1.5,2]}"#, 1),
        (r#"{"id":-1,"list":[1.5,2]}"#, -1),
    ];
    for (source, id) in documents {
        let item = ciborium::Value::Map(vec![
            (ciborium::Value::Text("id".into()), ciborium::Value::Integer(id.into())),
            (ciborium::Value::Text("list".into()), ciborium::Value::Array(vec![
                ciborium::Value::Float(1.5),
                ciborium::Value::Integer(2.into()),
            ])),
        ]);
        assert_eq!(json(source), Value::from(item.clone()));
        assert_eq!(report(&m, &json(source)), report(&m, &Value::from(item)));
    }
    assert_eq!(report(&m, &json(documents[1].0)), ["$.id: expected uint, found int"]);
}
