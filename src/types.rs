//! The entity tree that schema declarations are turned into.
use vstd::prelude::*;

verus! {

/// How a field's type is wrapped, outermost first.
#[derive(PartialEq, Eq, Structural, Clone, Copy, Debug)]
pub enum TypeModifier {
    /// The type as it stands: exactly one value.
    Plain,
    /// At most one value.
    Optional,
    /// Any number of values.
    Vector,
    /// A fixed number of values.
    Array(usize),
    /// No value at all: the field is left out when emitted.
    Empty,
}

/// Where a field comes from in the schema.
#[derive(PartialEq, Eq, Structural, Clone, Copy, Debug)]
pub enum StructFieldSource {
    Element,
    Attribute,
    Base,
    Choice,
    Text,
}

/// The constraining facets of a simple type restriction.
#[derive(PartialEq, Eq, Structural, Clone, Copy, Debug)]
pub enum FacetType {
    MinInclusive,
    MaxInclusive,
    MinExclusive,
    MaxExclusive,
    Length,
    MinLength,
    MaxLength,
    Pattern,
    WhiteSpace,
    TotalDigits,
    FractionDigits,
    Enumeration,
}

#[derive(Debug)]
pub struct Facet {
    pub facet_type: FacetType,
    pub value: String,
    pub comment: Option<String>,
}

#[derive(Debug)]
pub struct StructField {
    pub name: String,
    pub ty_name: String,
    pub comment: Option<String>,
    pub subtypes: Vec<RsEntity>,
    pub source: StructFieldSource,
    pub type_modifiers: Vec<TypeModifier>,
}

#[derive(Debug)]
pub struct Struct {
    pub name: String,
    pub comment: Option<String>,
    pub fields: Vec<StructField>,
    pub subtypes: Vec<RsEntity>,
}

#[derive(Debug)]
pub struct TupleStruct {
    pub name: String,
    pub comment: Option<String>,
    pub ty_name: String,
    pub subtypes: Vec<RsEntity>,
    pub facets: Vec<Facet>,
    /// How the wrapped type is repeated: a list type is a `Vector` of its items.
    pub type_modifiers: Vec<TypeModifier>,
}

#[derive(Debug)]
pub struct Alias {
    pub name: String,
    pub original: String,
    pub comment: Option<String>,
    pub subtypes: Vec<RsEntity>,
}

#[derive(Debug)]
pub struct EnumCase {
    pub name: String,
    pub comment: Option<String>,
    pub value: String,
}

#[derive(Debug)]
pub struct Enum {
    pub name: String,
    pub cases: Vec<EnumCase>,
    pub comment: Option<String>,
    pub ty_name: String,
    pub subtypes: Vec<RsEntity>,
}

#[derive(Debug)]
pub struct Import {
    pub name: String,
    pub location: String,
    pub namespace: String,
}

/// One entity of the tree.
#[derive(Debug)]
pub enum RsEntity {
    Struct(Struct),
    StructField(StructField),
    TupleStruct(TupleStruct),
    Enum(Enum),
    EnumCase(EnumCase),
    Alias(Alias),
    Import(Import),
}

/// The view of an optional text.
pub open spec fn opt_text(o: Option<String>) -> Option<Seq<char>> {
    match o {
        Some(s) => Some(s@),
        None => None,
    }
}

impl RsEntity {
    pub open spec fn spec_name(&self) -> Seq<char> {
        match self {
            RsEntity::Struct(x) => x.name@,
            RsEntity::StructField(x) => x.name@,
            RsEntity::TupleStruct(x) => x.name@,
            RsEntity::Enum(x) => x.name@,
            RsEntity::EnumCase(x) => x.name@,
            RsEntity::Alias(x) => x.name@,
            RsEntity::Import(x) => x.name@,
        }
    }

    /// The entity with its name replaced and everything else kept.
    pub open spec fn renamed(&self, other: &RsEntity, name: Seq<char>) -> bool {
        &&& other.spec_name() == name
        &&& match (self, other) {
            (RsEntity::Struct(a), RsEntity::Struct(b)) => a.comment == b.comment && a.fields
                == b.fields && a.subtypes == b.subtypes,
            (RsEntity::StructField(a), RsEntity::StructField(b)) => a.ty_name == b.ty_name
                && a.comment == b.comment && a.subtypes == b.subtypes && a.source == b.source
                && a.type_modifiers == b.type_modifiers,
            (RsEntity::TupleStruct(a), RsEntity::TupleStruct(b)) => a.comment == b.comment
                && a.ty_name == b.ty_name && a.subtypes == b.subtypes && a.facets == b.facets
                && a.type_modifiers == b.type_modifiers,
            (RsEntity::Enum(a), RsEntity::Enum(b)) => a.cases == b.cases && a.comment == b.comment
                && a.ty_name == b.ty_name && a.subtypes == b.subtypes,
            (RsEntity::EnumCase(a), RsEntity::EnumCase(b)) => a.comment == b.comment && a.value
                == b.value,
            (RsEntity::Alias(a), RsEntity::Alias(b)) => a.original == b.original && a.comment
                == b.comment && a.subtypes == b.subtypes,
            (RsEntity::Import(a), RsEntity::Import(b)) => a.location == b.location
                && a.namespace == b.namespace,
            _ => false,
        }
    }

    /// The entity's name.
    pub fn name(&self) -> (r: &String)
        ensures
            r@ == self.spec_name(),
    {
        match self {
            RsEntity::Struct(x) => &x.name,
            RsEntity::StructField(x) => &x.name,
            RsEntity::TupleStruct(x) => &x.name,
            RsEntity::Enum(x) => &x.name,
            RsEntity::EnumCase(x) => &x.name,
            RsEntity::Alias(x) => &x.name,
            RsEntity::Import(x) => &x.name,
        }
    }

    /// Gives the entity the name `name`, keeping everything else.
    pub fn set_name(&mut self, name: String)
        ensures
            old(self).renamed(final(self), name@),
    {
        match self {
            RsEntity::Struct(x) => x.name = name,
            RsEntity::StructField(x) => x.name = name,
            RsEntity::TupleStruct(x) => x.name = name,
            RsEntity::Enum(x) => x.name = name,
            RsEntity::EnumCase(x) => x.name = name,
            RsEntity::Alias(x) => x.name = name,
            RsEntity::Import(x) => x.name = name,
        }
    }
}

} // verus!
