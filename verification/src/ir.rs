//! The resolved schema that documents are checked against.

use vstd::prelude::*;

use crate::double::Double;

verus! {

/// A CBOR tag number, as in `#6.NN(...)`.
#[derive(Debug, Clone, Copy, PartialEq, Eq, Structural)]
pub struct CborTag(pub u64);

/// A type that a schema does not define further.
#[derive(Debug, Clone, Copy, PartialEq, Eq, Structural)]
pub enum Primitive {
    Bool,
    Null,
    Undefined,
    Uint,
    Int,
    Float16,
    Float32,
    Float64,
    Float,
    Bstr,
    Tstr,
    Any,
}

/// A literal written in a schema.
#[derive(Debug, PartialEq)]
pub enum LiteralValue {
    Bool(bool),
    Null,
    Uint(u64),
    Int(i64),
    Float(Double),
    Text(String),
    Bytes(Vec<u8>),
}

/// The type of a field, an element or an alternative.
#[derive(Debug, PartialEq)]
pub enum TypeRef {
    Primitive(Primitive),
    /// A type that the schema defines under this name.
    Named(String),
    /// Alternatives, tried in order.
    Choice(Vec<TypeRef>),
    Tagged(CborTag, Box<TypeRef>),
}

/// A control operator or a range, narrowing the type that it is attached to.
#[derive(Debug, PartialEq)]
#[allow(inconsistent_fields)]
pub enum Constraint {
    /// `.size n`
    SizeExact(usize),
    /// `.size (min..max)`
    SizeRange { min: Option<usize>, max: Option<usize> },
    /// `min..max`, or `min...max` where `inclusive` is false.
    ValueRangeInt { min: Option<i64>, max: Option<i64>, inclusive: bool },
    ValueRangeUint { min: Option<u64>, max: Option<u64>, inclusive: bool },
    ValueRangeF64 { min: Option<Double>, max: Option<Double>, inclusive: bool },
    /// `.eq`
    Eq(LiteralValue),
    /// `.ne`
    Ne(LiteralValue),
    /// `.regexp`
    Regexp { pattern: String },
    /// `.cbor`: the bytes hold one item of this type.
    CborEmbedded(Box<TypeRef>),
    /// `.cborseq`: the bytes hold a sequence of items of this type.
    CborSeq(Box<TypeRef>),
    /// `.default`, which does not restrict anything.
    Default(LiteralValue),
}

/// How often an element may occur.
#[derive(Debug, Clone, Copy, PartialEq, Eq)]
pub enum Occurrence {
    Required,
    Optional,
    ZeroOrMore,
    OneOrMore,
    Bounded { min: u32, max: Option<u32> },
}

/// The key under which a field is looked up.
#[derive(Debug, PartialEq)]
pub enum FieldKey {
    Text(String),
    Int(i64),
    Uint(u64),
}

/// A field of a struct. `required` tells whether its occurrence demands that the
/// field be present.
#[derive(Debug, PartialEq)]
pub struct FieldDef {
    pub name: String,
    pub key: FieldKey,
    pub ty: TypeRef,
    pub required: bool,
    pub constraints: Vec<Constraint>,
}

#[derive(Debug, PartialEq)]
pub struct StructDef {
    pub name: String,
    pub fields: Vec<FieldDef>,
    pub tagged: Option<CborTag>,
}

/// A variant of an enum. Its constraints hold the literal that tells it from the
/// variants with the same primitive.
#[derive(Debug, PartialEq)]
pub struct EnumVariant {
    pub name: String,
    pub ty: TypeRef,
    pub constraints: Vec<Constraint>,
}

#[derive(Debug, PartialEq)]
pub struct EnumDef {
    pub name: String,
    pub variants: Vec<EnumVariant>,
    pub tagged: Option<CborTag>,
}

#[derive(Debug, PartialEq)]
pub struct ArrayDef {
    pub name: String,
    pub element: TypeRef,
    pub occurrence: Occurrence,
    pub tagged: Option<CborTag>,
}

/// A CDDL table, `{* K => V}`.
#[derive(Debug, PartialEq)]
pub struct TableDef {
    pub name: String,
}

#[derive(Debug, PartialEq)]
pub struct AliasDef {
    pub name: String,
    pub ty: TypeRef,
    pub constraints: Vec<Constraint>,
    pub tagged: Option<CborTag>,
}

/// A rule of the schema.
#[derive(Debug, PartialEq)]
pub enum TypeDef {
    Struct(StructDef),
    Enum(EnumDef),
    Array(ArrayDef),
    Table(TableDef),
    Alias(AliasDef),
}

impl TypeDef {
    /// The name under which the schema defines this rule.
    pub open spec fn defined_name(self) -> Seq<char> {
        match self {
            TypeDef::Struct(def) => def.name@,
            TypeDef::Enum(def) => def.name@,
            TypeDef::Array(def) => def.name@,
            TypeDef::Table(def) => def.name@,
            TypeDef::Alias(def) => def.name@,
        }
    }

    /// The name under which the schema defines this rule.
    pub fn name(&self) -> (name: &String)
        ensures
            name@ == self.defined_name(),
    {
        match self {
            TypeDef::Struct(def) => &def.name,
            TypeDef::Enum(def) => &def.name,
            TypeDef::Array(def) => &def.name,
            TypeDef::Table(def) => &def.name,
            TypeDef::Alias(def) => &def.name,
        }
    }
}

/// A schema: its rules, and the name of its root type.
#[derive(Debug, PartialEq)]
pub struct IrModule {
    pub root: String,
    pub types: Vec<TypeDef>,
}

impl IrModule {
    /// Rule `i` is the one that `name` refers to: the first of that name.
    pub open spec fn defines_at(self, name: Seq<char>, i: int) -> bool {
        &&& 0 <= i < self.types@.len()
        &&& self.types@[i].defined_name() == name
        &&& forall|j: int| 0 <= j < i ==> (#[trigger] self.types@[j]).defined_name() != name
    }

    /// The rule that `name` refers to, if there is one.
    pub open spec fn lookup(self, name: Seq<char>) -> Option<TypeDef> {
        if exists|i: int| self.defines_at(name, i) {
            Some(self.types@[choose|i: int| self.defines_at(name, i)])
        } else {
            None
        }
    }

    /// A name is found exactly where some rule has it, and what is found has it.
    pub proof fn lookup_goes_by_name(self, name: Seq<char>)
        ensures
            self.lookup(name) is Some <==> exists|i: int|
                0 <= i < self.types@.len() && (#[trigger] self.types@[i]).defined_name() == name,
            self.lookup(name) matches Some(def) ==> def.defined_name() == name,
    {
        if exists|i: int|
            0 <= i < self.types@.len() && (#[trigger] self.types@[i]).defined_name() == name {
            let i = choose|i: int|
                0 <= i < self.types@.len() && (#[trigger] self.types@[i]).defined_name() == name;
            self.lemma_first_of_name(name, i);
        }
    }

    proof fn lemma_first_of_name(self, name: Seq<char>, i: int)
        requires
            0 <= i < self.types@.len(),
            self.types@[i].defined_name() == name,
        ensures
            exists|k: int| self.defines_at(name, k),
        decreases i,
    {
        if exists|j: int| 0 <= j < i && (#[trigger] self.types@[j]).defined_name() == name {
            let j = choose|j: int| 0 <= j < i && (#[trigger] self.types@[j]).defined_name() == name;
            self.lemma_first_of_name(name, j);
        } else {
            assert(self.defines_at(name, i));
        }
    }

    /// Looks up the rule of that name.
    pub fn get(&self, name: &str) -> (def: Option<&TypeDef>)
        ensures
            def == (match self.lookup(name@) {
                Some(found) => Some(&found),
                None => None,
            }),
    {
        let wanted = name.to_owned();
        let mut i: usize = 0;
        while i < self.types.len()
            invariant
                i <= self.types.len(),
                wanted@ == name@,
                forall|j: int|
                    0 <= j < i ==> (#[trigger] self.types@[j]).defined_name() != name@,
            decreases self.types.len() - i,
        {
            if *self.types[i].name() == wanted {
                proof {
                    assert(self.defines_at(name@, i as int));
                    let k = choose|k: int| self.defines_at(name@, k);
                    assert(k == i) by {
                        assert(!(k < i) && !(i < k));
                    }
                }
                return Some(&self.types[i]);
            }
            i += 1;
        }
        assert(forall|k: int| !self.defines_at(name@, k));
        None
    }
}

} // verus!
