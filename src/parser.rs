//! Per-construct parsers: from schema elements to entities.
use vstd::prelude::*;
use vstd::string::StringExecFns;
use crate::comment::{chars_of, is_white_space, is_white_space_char, push_range};
use crate::names::{pascal_case, pascal_of};
use crate::node::{first_of_kind, last_of_kind, same_text, ElementType, XsdNode};
use crate::types::{
    opt_text, Alias, Enum, EnumCase, Facet, RsEntity, Struct, StructField, StructFieldSource,
    TupleStruct, TypeModifier,
};

verus! {

/// Why a schema element could not be parsed.
#[derive(PartialEq, Eq, Structural, Clone, Copy, Debug)]
pub enum Malformed {
    /// A declaration with neither `name` nor `ref`, or with an empty one.
    MissingName,
    /// A `restriction` without `base`.
    MissingBase,
    /// A facet or `enumeration` without `value`.
    MissingValue,
    /// An element with neither `type`, `ref` nor an inline type, a declaration
    /// whose `type` or `ref` is empty, a simple type with no content, a `list`
    /// without `itemType` or a `union` without member types.
    MissingContent,
    /// A `use` other than `optional`, `required` or `prohibited`.
    UnknownUse,
    /// An occurrence bound that is not a count, or `minOccurs` above `maxOccurs`.
    BadOccurs,
}

#[derive(PartialEq, Eq, Structural, Clone, Copy, Debug)]
pub enum ParseError {
    MalformedSchema(Malformed),
    UnsupportedConstruct(ElementType),
}

/// The `use` of an attribute declaration.
#[derive(PartialEq, Eq, Structural, Clone, Copy, Debug)]
pub enum UseType {
    Required,
    Optional,
    Prohibited,
}

/// An upper occurrence bound.
#[derive(PartialEq, Eq, Structural, Clone, Copy, Debug)]
pub enum MaxOccurs {
    Bounded(u64),
    Unbounded,
}

/// The `use` that an attribute's `use` value stands for; absent means optional.
pub open spec fn use_of(v: Option<Seq<char>>) -> Option<UseType> {
    match v {
        None => Some(UseType::Optional),
        Some(s) => if s == "optional"@ {
            Some(UseType::Optional)
        } else if s == "required"@ {
            Some(UseType::Required)
        } else if s == "prohibited"@ {
            Some(UseType::Prohibited)
        } else {
            None
        },
    }
}

pub open spec fn use_modifier(u: UseType) -> TypeModifier {
    match u {
        UseType::Optional => TypeModifier::Optional,
        UseType::Required => TypeModifier::Plain,
        UseType::Prohibited => TypeModifier::Empty,
    }
}

/// The type modifiers of an element that occurs from `min` to `max` times.
pub open spec fn occurrence_modifiers(min: u64, max: MaxOccurs) -> Seq<TypeModifier> {
    match max {
        MaxOccurs::Bounded(m) => if m == 0 {
            seq![TypeModifier::Empty]
        } else if m == 1 {
            if min == 0 {
                seq![TypeModifier::Optional]
            } else {
                seq![TypeModifier::Plain]
            }
        } else if min == 0 {
            seq![TypeModifier::Optional, TypeModifier::Vector]
        } else {
            seq![TypeModifier::Vector]
        },
        MaxOccurs::Unbounded => if min == 0 {
            seq![TypeModifier::Optional, TypeModifier::Vector]
        } else {
            seq![TypeModifier::Vector]
        },
    }
}

pub open spec fn is_digit(c: char) -> bool {
    '0' <= c <= '9'
}

/// The number that a sequence of decimal digits writes.
pub open spec fn digits_value(s: Seq<char>) -> nat
    decreases s.len(),
{
    if s.len() == 0 {
        0
    } else {
        (digits_value(s.drop_last()) * 10 + (s.last() as int) - 48) as nat
    }
}

/// A count as an occurrence bound writes it: decimal digits, at least one, for a
/// value that fits in 64 bits.
pub open spec fn count_of(s: Seq<char>) -> Option<u64> {
    if 1 <= s.len() && (forall|i: int| 0 <= i < s.len() ==> is_digit(#[trigger] s[i]))
        && digits_value(s) <= u64::MAX {
        Some(digits_value(s) as u64)
    } else {
        None
    }
}

proof fn lemma_digits_grow(s: Seq<char>, j: int)
    requires
        0 <= j <= s.len(),
        forall|i: int| 0 <= i < s.len() ==> is_digit(#[trigger] s[i]),
    ensures
        digits_value(s.take(j)) <= digits_value(s),
    decreases s.len() - j,
{
    if j < s.len() {
        lemma_digits_grow(s, j + 1);
        assert(s.take(j + 1).drop_last() =~= s.take(j));
        assert(is_digit(s[j]));
    } else {
        assert(s.take(j) =~= s);
    }
}

/// `minOccurs`: one when absent.
pub open spec fn min_occurs_of(v: Option<Seq<char>>) -> Option<u64> {
    match v {
        None => Some(1),
        Some(s) => count_of(s),
    }
}

/// `maxOccurs`: one when absent, no bound for `unbounded`.
pub open spec fn max_occurs_of(v: Option<Seq<char>>) -> Option<MaxOccurs> {
    match v {
        None => Some(MaxOccurs::Bounded(1)),
        Some(s) => if s == "unbounded"@ {
            Some(MaxOccurs::Unbounded)
        } else {
            match count_of(s) {
                Some(n) => Some(MaxOccurs::Bounded(n)),
                None => None,
            }
        },
    }
}

/// Whether `min` and `max` contradict each other.
pub open spec fn contradictory(min: u64, max: MaxOccurs) -> bool {
    match max {
        MaxOccurs::Bounded(m) => min > m,
        MaxOccurs::Unbounded => false,
    }
}

/// The name of an enumeration case for the value `v`: PascalCase, with `_` in
/// front where it would start with a digit.
pub open spec fn case_name(v: Seq<char>) -> Seq<char> {
    digit_guarded(pascal_of(v))
}

/// `p`, with `_` in front where it starts with a digit.
pub open spec fn digit_guarded(p: Seq<char>) -> Seq<char> {
    if p.len() > 0 && is_digit(p[0]) {
        seq!['_'] + p
    } else {
        p
    }
}

/// The children of kind `k`, in order.
pub open spec fn of_kind(ns: Seq<XsdNode>, k: ElementType) -> Seq<XsdNode>
    decreases ns.len(),
{
    if ns.len() == 0 {
        seq![]
    } else if ns.last().kind() == k {
        of_kind(ns.drop_last(), k).push(ns.last())
    } else {
        of_kind(ns.drop_last(), k)
    }
}

/// The facet children, in order.
pub open spec fn facets_in(ns: Seq<XsdNode>) -> Seq<XsdNode>
    decreases ns.len(),
{
    if ns.len() == 0 {
        seq![]
    } else if ns.last().kind() is Facet {
        facets_in(ns.drop_last()).push(ns.last())
    } else {
        facets_in(ns.drop_last())
    }
}

pub open spec fn all_valued(ns: Seq<XsdNode>) -> bool {
    forall|i: int| 0 <= i < ns.len() ==> (#[trigger] ns[i]).attr("value"@) is Some
}

pub open spec fn name_or_empty(n: &XsdNode) -> Seq<char> {
    match n.attr("name"@) {
        Some(s) => s,
        None => seq![],
    }
}

/// Number of leading characters of `s` that are not white space.
pub open spec fn word_len(s: Seq<char>) -> nat
    decreases s.len(),
{
    if s.len() == 0 || is_white_space(s[0]) {
        0
    } else {
        1 + word_len(s.drop_first())
    }
}

/// The white-space separated words of `s`, in order.
pub open spec fn words(s: Seq<char>) -> Seq<Seq<char>>
    decreases s.len(),
{
    if s.len() == 0 {
        seq![]
    } else if is_white_space(s[0]) {
        words(s.drop_first())
    } else {
        let k = word_len(s);
        if k == 0 || k > s.len() {
            seq![]
        } else {
            seq![s.take(k as int)] + words(s.skip(k as int))
        }
    }
}

/// A list type of `n`, declared by `ln`: a newtype over its `itemType`, repeated.
pub open spec fn list_result(n: &XsdNode, ln: &XsdNode, r: Result<RsEntity, ParseError>) -> bool {
    match ln.attr("itemType"@) {
        Some(t) if t.len() > 0 => match r {
            Ok(RsEntity::TupleStruct(x)) => {
                &&& x.name@ == name_or_empty(n)
                &&& x.ty_name@ == t
                &&& opt_text(x.comment) == n.documentation()
                &&& x.subtypes@.len() == 0
                &&& x.facets@.len() == 0
                &&& x.type_modifiers@ == seq![TypeModifier::Vector]
            },
            _ => false,
        },
        _ => r == Err::<RsEntity, ParseError>(ParseError::MalformedSchema(Malformed::MissingContent)),
    }
}

/// The member types that a `union` names.
pub open spec fn member_types(un: &XsdNode) -> Seq<Seq<char>> {
    match un.attr("memberTypes"@) {
        Some(m) => words(m),
        None => seq![],
    }
}

/// A union type of `n`, declared by `un`: an enumeration with one case per
/// member type, in order, over `String`.
pub open spec fn union_result(n: &XsdNode, un: &XsdNode, r: Result<RsEntity, ParseError>) -> bool {
    let ms = member_types(un);
    if ms.len() == 0 {
        r == Err::<RsEntity, ParseError>(ParseError::MalformedSchema(Malformed::MissingContent))
    } else {
        match r {
            Ok(RsEntity::Enum(e)) => {
                &&& e.name@ == name_or_empty(n)
                &&& e.ty_name@ == string_type()
                &&& opt_text(e.comment) == n.documentation()
                &&& e.subtypes@.len() == 0
                &&& e.cases@.len() == ms.len()
                &&& forall|i: int|
                    0 <= i < ms.len() ==> {
                        &&& (#[trigger] e.cases@[i]).value@ == ms[i]
                        &&& e.cases@[i].name@ == case_name(ms[i])
                        &&& e.cases@[i].comment is None
                    }
            },
            _ => false,
        }
    }
}

/// What `parse_simple_type` gives for `n`.
pub open spec fn simple_type_result(n: &XsdNode, r: Result<RsEntity, ParseError>) -> bool {
    match first_of_kind(n.children@, ElementType::Restriction) {
        None => match first_of_kind(n.children@, ElementType::List) {
            Some(li) => list_result(n, &n.children@[li], r),
            None => match first_of_kind(n.children@, ElementType::Union) {
                Some(ui) => union_result(n, &n.children@[ui], r),
                None => r == Err::<RsEntity, ParseError>(
                    ParseError::MalformedSchema(Malformed::MissingContent),
                ),
            },
        },
        Some(ri) => {
            let rn = n.children@[ri];
            let enums = of_kind(rn.children@, ElementType::Enumeration);
            let facets = facets_in(rn.children@);
            match rn.attr("base"@) {
                None => r == Err::<RsEntity, ParseError>(
                    ParseError::MalformedSchema(Malformed::MissingBase),
                ),
                Some(base) => if !all_valued(enums) || (enums.len() == 0 && !all_valued(
                    facets,
                )) {
                    r == Err::<RsEntity, ParseError>(
                        ParseError::MalformedSchema(Malformed::MissingValue),
                    )
                } else if enums.len() > 0 {
                    match r {
                        Ok(RsEntity::Enum(e)) => {
                            &&& e.name@ == name_or_empty(n)
                            &&& e.ty_name@ == base
                            &&& opt_text(e.comment) == n.documentation()
                            &&& e.subtypes@.len() == 0
                            &&& e.cases@.len() == enums.len()
                            &&& forall|i: int|
                                0 <= i < enums.len() ==> {
                                    &&& Some((#[trigger] e.cases@[i]).value@) == enums[i].attr(
                                        "value"@,
                                    )
                                    &&& e.cases@[i].name@ == case_name(e.cases@[i].value@)
                                    &&& opt_text(e.cases@[i].comment)
                                        == enums[i].documentation()
                                }
                        },
                        _ => false,
                    }
                } else {
                    match r {
                        Ok(RsEntity::TupleStruct(t)) => {
                            &&& t.name@ == name_or_empty(n)
                            &&& t.ty_name@ == base
                            &&& opt_text(t.comment) == n.documentation()
                            &&& t.subtypes@.len() == 0
                            &&& t.type_modifiers@.len() == 0
                            &&& t.facets@.len() == facets.len()
                            &&& forall|i: int|
                                0 <= i < facets.len() ==> {
                                    &&& facets[i].kind() == ElementType::Facet(
                                        (#[trigger] t.facets@[i]).facet_type,
                                    )
                                    &&& Some(t.facets@[i].value@) == facets[i].attr("value"@)
                                    &&& opt_text(t.facets@[i].comment)
                                        == facets[i].documentation()
                                }
                        },
                        _ => false,
                    }
                },
            }
        },
    }
}

fn text(s: &str) -> (r: String)
    ensures
        r@ == s@,
{
    String::from_str(s)
}

/// The name of the enumeration case for the value `v`.
pub fn enum_case_name(v: &str) -> (r: String)
    ensures
        r@ == case_name(v@),
{
    guard_leading_digit(pascal_case(v))
}

/// `p`, with `_` in front where it starts with a digit, so that it can begin an
/// identifier.
pub fn guard_leading_digit(p: String) -> (r: String)
    ensures
        r@ == digit_guarded(p@),
{
    let cs = chars_of(p.as_str());
    if cs.len() > 0 && '0' <= cs[0] && cs[0] <= '9' {
        let mut r = text("_");
        r.append(p.as_str());
        proof {
            reveal_strlit("_");
        }
        assert(r@ =~= seq!['_'] + p@);
        r
    } else {
        p
    }
}

/// The `name` of a declaration, else its `ref`.
pub open spec fn name_or_ref(n: &XsdNode) -> Option<Seq<char>> {
    match n.attr("name"@) {
        Some(s) => Some(s),
        None => n.attr("ref"@),
    }
}

/// The `type` of a declaration, else its `ref`.
pub open spec fn type_or_ref(n: &XsdNode) -> Option<Seq<char>> {
    match n.attr("type"@) {
        Some(s) => Some(s),
        None => n.attr("ref"@),
    }
}

/// The type of an attribute that declares none.
pub open spec fn string_type() -> Seq<char> {
    seq!['S', 't', 'r', 'i', 'n', 'g']
}

/// Suffix of the name given to an inline type.
pub open spec fn type_suffix() -> Seq<char> {
    seq!['T', 'y', 'p', 'e']
}

/// A field named `name` of `n`, typed by its `type` or `ref` (refused where
/// empty), else by its last inline simple type, which becomes the field's one
/// subtype under the name `name` followed by `Type`, else, for an attribute, by
/// `String`.
pub open spec fn field_result(
    n: &XsdNode,
    name: Seq<char>,
    source: StructFieldSource,
    mods: Seq<TypeModifier>,
    r: Result<RsEntity, ParseError>,
) -> bool {
    match type_or_ref(n) {
        Some(t) => if t.len() == 0 {
            r == Err::<RsEntity, ParseError>(ParseError::MalformedSchema(Malformed::MissingContent))
        } else {
            match r {
            Ok(RsEntity::StructField(f)) => {
                &&& f.name@ == name
                &&& f.ty_name@ == t
                &&& opt_text(f.comment) == n.documentation()
                &&& f.subtypes@.len() == 0
                &&& f.source == source
                &&& f.type_modifiers@ == mods
            },
            _ => false,
            }
        },
        None => match last_of_kind(n.children@, ElementType::SimpleType) {
            None => if source == StructFieldSource::Attribute {
                match r {
                    Ok(RsEntity::StructField(f)) => {
                        &&& f.name@ == name
                        &&& f.ty_name@ == string_type()
                        &&& opt_text(f.comment) == n.documentation()
                        &&& f.subtypes@.len() == 0
                        &&& f.source == source
                        &&& f.type_modifiers@ == mods
                    },
                    _ => false,
                }
            } else {
                r == Err::<RsEntity, ParseError>(
                    ParseError::MalformedSchema(Malformed::MissingContent),
                )
            },
            Some(c) => exists|inner: Result<RsEntity, ParseError>|
                #![trigger inline_field(n, name, source, mods, inner, r)]
                simple_type_result(&n.children@[c], inner) && inline_field(
                    n,
                    name,
                    source,
                    mods,
                    inner,
                    r,
                ),
        },
    }
}

/// A field named `name` whose type is the inline type that parsed to `inner`.
pub open spec fn inline_field(
    n: &XsdNode,
    name: Seq<char>,
    source: StructFieldSource,
    mods: Seq<TypeModifier>,
    inner: Result<RsEntity, ParseError>,
    r: Result<RsEntity, ParseError>,
) -> bool {
    match inner {
        Err(e) => r == Err::<RsEntity, ParseError>(e),
        Ok(t) => match r {
            Ok(RsEntity::StructField(f)) => {
                &&& f.name@ == name
                &&& f.ty_name@ == name + type_suffix()
                &&& opt_text(f.comment) == n.documentation()
                &&& f.subtypes@.len() == 1
                &&& t.renamed(&f.subtypes@[0], name + type_suffix())
                &&& f.source == source
                &&& f.type_modifiers@ == mods
            },
            _ => false,
        },
    }
}

/// The attribute that the inline type which parsed to `inner` becomes, named `name`.
pub open spec fn inline_global(
    name: Seq<char>,
    inner: Result<RsEntity, ParseError>,
    r: Result<RsEntity, ParseError>,
) -> bool {
    match inner {
        Err(e) => r == Err::<RsEntity, ParseError>(e),
        Ok(t) => match r {
            Ok(x) => t.renamed(&x, name),
            Err(_) => false,
        },
    }
}

/// What `parse_attribute` gives for an attribute declared inside a type.
pub open spec fn local_attribute_result(n: &XsdNode, r: Result<RsEntity, ParseError>) -> bool {
    match name_or_ref(n) {
        None => r == Err::<RsEntity, ParseError>(ParseError::MalformedSchema(Malformed::MissingName)),
        Some(name) => if name.len() == 0 {
            r == Err::<RsEntity, ParseError>(ParseError::MalformedSchema(Malformed::MissingName))
        } else {
            match use_of(n.attr("use"@)) {
                None => r == Err::<RsEntity, ParseError>(
                    ParseError::MalformedSchema(Malformed::UnknownUse),
                ),
                Some(u) => field_result(
                    n,
                    name,
                    StructFieldSource::Attribute,
                    seq![use_modifier(u)],
                    r,
                ),
            }
        },
    }
}

/// `r` is an alias named `name` of `original`, documented by `doc`.
pub open spec fn is_alias(
    r: Result<RsEntity, ParseError>,
    name: Seq<char>,
    original: Seq<char>,
    doc: Option<Seq<char>>,
) -> bool {
    match r {
        Ok(RsEntity::Alias(a)) => {
            &&& a.name@ == name
            &&& a.original@ == original
            &&& opt_text(a.comment) == doc
            &&& a.subtypes@.len() == 0
        },
        _ => false,
    }
}

/// What `parse_global_attribute` gives for an attribute declared at the schema's top.
pub open spec fn global_attribute_result(n: &XsdNode, r: Result<RsEntity, ParseError>) -> bool {
    match n.attr("ref"@) {
        Some(rf) => if rf.len() == 0 {
            r == Err::<RsEntity, ParseError>(ParseError::MalformedSchema(Malformed::MissingName))
        } else {
            is_alias(r, rf, rf, n.documentation())
        },
        None => match n.attr("name"@) {
            None => r == Err::<RsEntity, ParseError>(
                ParseError::MalformedSchema(Malformed::MissingName),
            ),
            Some(name) => if name.len() == 0 {
                r == Err::<RsEntity, ParseError>(ParseError::MalformedSchema(Malformed::MissingName))
            } else {
                match n.attr("type"@) {
                Some(t) => if t.len() == 0 {
                    r == Err::<RsEntity, ParseError>(
                        ParseError::MalformedSchema(Malformed::MissingContent),
                    )
                } else {
                    is_alias(r, name, t, n.documentation())
                },
                None => match last_of_kind(n.children@, ElementType::SimpleType) {
                    Some(c) => exists|inner: Result<RsEntity, ParseError>|
                        #![trigger inline_global(name, inner, r)]
                        simple_type_result(&n.children@[c], inner) && inline_global(name, inner, r),
                    None => match r {
                        Ok(RsEntity::Struct(s)) => {
                            &&& s.name@ == name
                            &&& s.comment is None
                            &&& s.fields@.len() == 0
                            &&& s.subtypes@.len() == 0
                        },
                        _ => false,
                    },
                },
                }
            },
        },
    }
}

/// What `parse_element_field` gives for an element declared inside `parent`.
pub open spec fn element_field_result(
    n: &XsdNode,
    parent: &XsdNode,
    r: Result<RsEntity, ParseError>,
) -> bool {
    let source = if parent.kind() == ElementType::Choice {
        StructFieldSource::Choice
    } else {
        StructFieldSource::Element
    };
    match name_or_ref(n) {
        None => r == Err::<RsEntity, ParseError>(ParseError::MalformedSchema(Malformed::MissingName)),
        Some(name) => if name.len() == 0 {
            r == Err::<RsEntity, ParseError>(ParseError::MalformedSchema(Malformed::MissingName))
        } else {
            match (
            min_occurs_of(n.attr("minOccurs"@)),
            max_occurs_of(n.attr("maxOccurs"@)),
        ) {
            (Some(lo), Some(hi)) => if contradictory(lo, hi) {
                r == Err::<RsEntity, ParseError>(ParseError::MalformedSchema(Malformed::BadOccurs))
            } else {
                field_result(n, name, source, occurrence_modifiers(lo, hi), r)
            },
            _ => r == Err::<RsEntity, ParseError>(ParseError::MalformedSchema(Malformed::BadOccurs)),
        }
        },
    }
}

proof fn lemma_of_kind_prefix(ns: Seq<XsdNode>, i: int, k: ElementType)
    requires
        0 <= i <= ns.len(),
    ensures
        of_kind(ns.take(i), k).len() <= of_kind(ns, k).len(),
        forall|j: int|
            0 <= j < of_kind(ns.take(i), k).len() ==> of_kind(ns.take(i), k)[j] == of_kind(
                ns,
                k,
            )[j],
    decreases ns.len() - i,
{
    if i < ns.len() {
        lemma_of_kind_prefix(ns, i + 1, k);
        assert(ns.take(i + 1).drop_last() =~= ns.take(i));
    } else {
        assert(ns.take(i) =~= ns);
    }
}

proof fn lemma_facets_prefix(ns: Seq<XsdNode>, i: int)
    requires
        0 <= i <= ns.len(),
    ensures
        facets_in(ns.take(i)).len() <= facets_in(ns).len(),
        forall|j: int|
            0 <= j < facets_in(ns.take(i)).len() ==> facets_in(ns.take(i))[j] == facets_in(ns)[j],
    decreases ns.len() - i,
{
    if i < ns.len() {
        lemma_facets_prefix(ns, i + 1);
        assert(ns.take(i + 1).drop_last() =~= ns.take(i));
    } else {
        assert(ns.take(i) =~= ns);
    }
}

/// The cases of the `enumeration` children of a restriction, in order.
fn enum_cases(rn: &XsdNode) -> (r: Result<Vec<EnumCase>, ParseError>)
    ensures
        ({
            let enums = of_kind(rn.children@, ElementType::Enumeration);
            &&& r is Ok <==> all_valued(enums)
            &&& r matches Err(e) ==> e == ParseError::MalformedSchema(Malformed::MissingValue)
            &&& r matches Ok(cases) ==> {
                &&& cases@.len() == enums.len()
                &&& forall|i: int|
                    0 <= i < enums.len() ==> {
                        &&& Some((#[trigger] cases@[i]).value@) == enums[i].attr("value"@)
                        &&& cases@[i].name@ == case_name(cases@[i].value@)
                        &&& opt_text(cases@[i].comment) == enums[i].documentation()
                    }
            }
        }),
{
    let ghost ns = rn.children@;
    let mut cases: Vec<EnumCase> = Vec::new();
    let mut i: usize = 0;
    while i < rn.children.len()
        invariant
            ns == rn.children@,
            i <= ns.len(),
            all_valued(of_kind(ns.take(i as int), ElementType::Enumeration)),
            cases@.len() == of_kind(ns.take(i as int), ElementType::Enumeration).len(),
            forall|j: int|
                0 <= j < cases@.len() ==> {
                    let en = of_kind(ns.take(i as int), ElementType::Enumeration)[j];
                    &&& Some((#[trigger] cases@[j]).value@) == en.attr("value"@)
                    &&& cases@[j].name@ == case_name(cases@[j].value@)
                    &&& opt_text(cases@[j].comment) == en.documentation()
                },
        decreases ns.len() - i,
    {
        let c = &rn.children[i];
        assert(ns.take(i + 1).drop_last() =~= ns.take(i as int));
        proof {
            lemma_of_kind_prefix(ns, i + 1, ElementType::Enumeration);
        }
        if c.xsd_type() == ElementType::Enumeration {
            match c.attribute("value") {
                None => {
                    assert(of_kind(ns, ElementType::Enumeration)[cases@.len() as int] == *c);
                    return Err(ParseError::MalformedSchema(Malformed::MissingValue));
                },
                Some(v) => {
                    let name = enum_case_name(v.as_str());
                    cases.push(EnumCase { name, comment: c.get_documentation(), value: v });
                },
            }
        }
        i = i + 1;
    }
    assert(ns.take(ns.len() as int) =~= ns);
    Ok(cases)
}

/// The facets of a restriction, in order.
fn restriction_facets(rn: &XsdNode) -> (r: Result<Vec<Facet>, ParseError>)
    ensures
        ({
            let facets = facets_in(rn.children@);
            &&& r is Ok <==> all_valued(facets)
            &&& r matches Err(e) ==> e == ParseError::MalformedSchema(Malformed::MissingValue)
            &&& r matches Ok(fs) ==> {
                &&& fs@.len() == facets.len()
                &&& forall|i: int|
                    0 <= i < facets.len() ==> {
                        &&& facets[i].kind() == ElementType::Facet((#[trigger] fs@[i]).facet_type)
                        &&& Some(fs@[i].value@) == facets[i].attr("value"@)
                        &&& opt_text(fs@[i].comment) == facets[i].documentation()
                    }
            }
        }),
{
    let ghost ns = rn.children@;
    let mut fs: Vec<Facet> = Vec::new();
    let mut i: usize = 0;
    while i < rn.children.len()
        invariant
            ns == rn.children@,
            i <= ns.len(),
            all_valued(facets_in(ns.take(i as int))),
            fs@.len() == facets_in(ns.take(i as int)).len(),
            forall|j: int|
                0 <= j < fs@.len() ==> {
                    let fnode = facets_in(ns.take(i as int))[j];
                    &&& fnode.kind() == ElementType::Facet((#[trigger] fs@[j]).facet_type)
                    &&& Some(fs@[j].value@) == fnode.attr("value"@)
                    &&& opt_text(fs@[j].comment) == fnode.documentation()
                },
        decreases ns.len() - i,
    {
        let c = &rn.children[i];
        assert(ns.take(i + 1).drop_last() =~= ns.take(i as int));
        proof {
            lemma_facets_prefix(ns, i + 1);
        }
        match c.xsd_type() {
            ElementType::Facet(ft) => match c.attribute("value") {
                None => {
                    assert(facets_in(ns)[fs@.len() as int] == *c);
                    return Err(ParseError::MalformedSchema(Malformed::MissingValue));
                },
                Some(v) => {
                    fs.push(Facet { facet_type: ft, value: v, comment: c.get_documentation() });
                },
            },
            _ => {},
        }
        i = i + 1;
    }
    assert(ns.take(ns.len() as int) =~= ns);
    Ok(fs)
}

proof fn lemma_word_len_bound(s: Seq<char>)
    ensures
        word_len(s) <= s.len(),
    decreases s.len(),
{
    if s.len() > 0 && !is_white_space(s[0]) {
        lemma_word_len_bound(s.drop_first());
    }
}

/// One case per white-space separated word of `m`, in order: the word as the
/// value, named as an enumeration case.
fn union_cases(m: &str) -> (r: Vec<EnumCase>)
    ensures
        r@.len() == words(m@).len(),
        forall|i: int|
            0 <= i < r@.len() ==> {
                &&& (#[trigger] r@[i]).value@ == words(m@)[i]
                &&& r@[i].name@ == case_name(words(m@)[i])
                &&& r@[i].comment is None
            },
{
    let cs = chars_of(m);
    let n = cs.len();
    let ghost w = words(m@);
    let mut cases: Vec<EnumCase> = Vec::new();
    let mut i: usize = 0;
    assert(cs@.subrange(0, n as int) =~= cs@);
    while i < n
        invariant
            i <= n == cs.len(),
            cs@ == m@,
            w == words(m@),
            cases@.len() <= w.len(),
            words(cs@.subrange(i as int, n as int)) == w.subrange(cases@.len() as int, w.len() as int),
            forall|j: int|
                0 <= j < cases@.len() ==> {
                    &&& (#[trigger] cases@[j]).value@ == w[j]
                    &&& cases@[j].name@ == case_name(w[j])
                    &&& cases@[j].comment is None
                },
        decreases n - i,
    {
        let ghost rest = cs@.subrange(i as int, n as int);
        if is_white_space_char(cs[i]) {
            assert(rest.drop_first() =~= cs@.subrange(i + 1, n as int));
            i = i + 1;
        } else {
            let mut j: usize = i;
            while j < n && !is_white_space_char(cs[j])
                invariant
                    i <= j <= n == cs.len(),
                    word_len(rest) == (j - i) + word_len(cs@.subrange(j as int, n as int)),
                decreases n - j,
            {
                assert(cs@.subrange(j as int, n as int).drop_first() =~= cs@.subrange(
                    j + 1,
                    n as int,
                ));
                j = j + 1;
            }
            assert(rest.take((j - i) as int) =~= cs@.subrange(i as int, j as int));
            assert(rest.skip((j - i) as int) =~= cs@.subrange(j as int, n as int));
            proof {
                lemma_word_len_bound(rest);
            }
            let ghost c = cases@.len() as int;
            assert(words(rest) == seq![cs@.subrange(i as int, j as int)] + words(
                cs@.subrange(j as int, n as int),
            ));
            assert(w.subrange(c, w.len() as int).len() > 0);
            assert(w.subrange(c, w.len() as int)[0] == w[c]);
            assert(w.subrange(c, w.len() as int).drop_first() =~= w.subrange(c + 1, w.len() as int));
            assert(words(rest) == seq![cs@.subrange(i as int, j as int)] + words(
                cs@.subrange(j as int, n as int),
            ));
            assert((seq![cs@.subrange(i as int, j as int)] + words(cs@.subrange(j as int, n as int))).drop_first()
                =~= words(cs@.subrange(j as int, n as int)));
            let mut value = String::new();
            push_range(&mut value, &cs, i, j);
            assert(value@ =~= cs@.subrange(i as int, j as int));
            let name = enum_case_name(value.as_str());
            cases.push(EnumCase { name, comment: None, value });
            i = j;
        }
    }
    assert(w.subrange(cases@.len() as int, w.len() as int).len() == 0);
    cases
}

/// A simple type: an enumeration where its restriction has `enumeration`
/// children, else a newtype over the restriction's base carrying its facets; a
/// `list` is a newtype over its item type, repeated; a `union` is an enumeration
/// with one case per member type.
pub fn parse_simple_type(node: &XsdNode) -> (r: Result<RsEntity, ParseError>)
    ensures
        simple_type_result(node, r),
{
    let ri = match node.first_child(ElementType::Restriction) {
        Some(i) => i,
        None => {
            let name = match node.attribute("name") {
                Some(n) => n,
                None => String::new(),
            };
            if let Some(li) = node.first_child(ElementType::List) {
                return match node.children[li].attribute("itemType") {
                    Some(t) => if t.as_str().is_empty() {
                        Err(ParseError::MalformedSchema(Malformed::MissingContent))
                    } else {
                        let mut mods: Vec<TypeModifier> = Vec::new();
                        mods.push(TypeModifier::Vector);
                        assert(mods@ =~= seq![TypeModifier::Vector]);
                        Ok(
                            RsEntity::TupleStruct(
                                TupleStruct {
                                    name,
                                    comment: node.get_documentation(),
                                    ty_name: t,
                                    subtypes: Vec::new(),
                                    facets: Vec::new(),
                                    type_modifiers: mods,
                                },
                            ),
                        )
                    },
                    None => Err(ParseError::MalformedSchema(Malformed::MissingContent)),
                };
            } else if let Some(ui) = node.first_child(ElementType::Union) {
                let cases = match node.children[ui].attribute("memberTypes") {
                    Some(m) => union_cases(m.as_str()),
                    None => Vec::new(),
                };
                if cases.len() == 0 {
                    return Err(ParseError::MalformedSchema(Malformed::MissingContent));
                }
                let t = text("String");
                proof {
                    reveal_strlit("String");
                }
                assert(t@ =~= string_type());
                return Ok(
                    RsEntity::Enum(
                        Enum {
                            name,
                            cases,
                            comment: node.get_documentation(),
                            ty_name: t,
                            subtypes: Vec::new(),
                        },
                    ),
                );
            } else {
                return Err(ParseError::MalformedSchema(Malformed::MissingContent));
            }
        },
    };
    let rn = &node.children[ri];
    let base = match rn.attribute("base") {
        Some(b) => b,
        None => {
            return Err(ParseError::MalformedSchema(Malformed::MissingBase));
        },
    };
    let name = match node.attribute("name") {
        Some(n) => n,
        None => String::new(),
    };
    let cases = match enum_cases(rn) {
        Ok(cs) => cs,
        Err(e) => {
            return Err(e);
        },
    };
    if cases.len() > 0 {
        Ok(
            RsEntity::Enum(
                Enum {
                    name,
                    cases,
                    comment: node.get_documentation(),
                    ty_name: base,
                    subtypes: Vec::new(),
                },
            ),
        )
    } else {
        let facets = match restriction_facets(rn) {
            Ok(fs) => fs,
            Err(e) => {
                return Err(e);
            },
        };
        Ok(
            RsEntity::TupleStruct(
                TupleStruct {
                    name,
                    comment: node.get_documentation(),
                    ty_name: base,
                    subtypes: Vec::new(),
                    facets,
                    type_modifiers: Vec::new(),
                },
            ),
        )
    }
}

/// The `use` of an attribute declaration, `None` for an unknown value.
pub fn attr_use(node: &XsdNode) -> (r: Option<UseType>)
    ensures
        r == use_of(node.attr("use"@)),
{
    match node.attribute("use") {
        None => Some(UseType::Optional),
        Some(v) => if same_text(v.as_str(), "optional") {
            Some(UseType::Optional)
        } else if same_text(v.as_str(), "required") {
            Some(UseType::Required)
        } else if same_text(v.as_str(), "prohibited") {
            Some(UseType::Prohibited)
        } else {
            None
        },
    }
}

/// The count that `s` writes, if it is decimal digits for a value that fits in
/// 64 bits.
pub fn parse_count(s: &str) -> (r: Option<u64>)
    ensures
        r == count_of(s@),
{
    let cs = chars_of(s);
    if cs.len() == 0 {
        return None;
    }
    let mut v: u64 = 0;
    let mut i: usize = 0;
    while i < cs.len()
        invariant
            cs@ == s@,
            1 <= cs.len(),
            i <= cs.len(),
            forall|j: int| 0 <= j < i ==> is_digit(#[trigger] cs@[j]),
            v == digits_value(cs@.take(i as int)),
        decreases cs.len() - i,
    {
        let c = cs[i];
        if !('0' <= c && c <= '9') {
            return None;
        }
        assert(cs@.take(i + 1).drop_last() =~= cs@.take(i as int));
        let d = (c as u32 - '0' as u32) as u64;
        if v > 1844674407370955161 || (v == 1844674407370955161 && d > 5) {
            proof {
                if forall|j: int| 0 <= j < cs@.len() ==> is_digit(#[trigger] cs@[j]) {
                    lemma_digits_grow(cs@, i + 1);
                }
            }
            return None;
        }
        v = v * 10 + d;
        i = i + 1;
    }
    assert(cs@.take(cs.len() as int) =~= cs@);
    Some(v)
}

/// `minOccurs` of an element: one when absent, `None` when not a count.
pub fn attr_min_occurs(node: &XsdNode) -> (r: Option<u64>)
    ensures
        r == min_occurs_of(node.attr("minOccurs"@)),
{
    match node.attribute("minOccurs") {
        None => Some(1),
        Some(v) => parse_count(v.as_str()),
    }
}

/// `maxOccurs` of an element: one when absent, `None` when neither a count nor
/// `unbounded`.
pub fn attr_max_occurs(node: &XsdNode) -> (r: Option<MaxOccurs>)
    ensures
        r == max_occurs_of(node.attr("maxOccurs"@)),
{
    match node.attribute("maxOccurs") {
        None => Some(MaxOccurs::Bounded(1)),
        Some(v) => if same_text(v.as_str(), "unbounded") {
            Some(MaxOccurs::Unbounded)
        } else {
            match parse_count(v.as_str()) {
                Some(n) => Some(MaxOccurs::Bounded(n)),
                None => None,
            }
        },
    }
}

/// The type modifiers of an element that occurs from `min` to `max` times:
/// optional for at most one, a list for more, a list that may be missing when
/// the least is zero.
pub fn type_modifiers(min: u64, max: MaxOccurs) -> (r: Vec<TypeModifier>)
    ensures
        r@ == occurrence_modifiers(min, max),
{
    let mut r: Vec<TypeModifier> = Vec::new();
    let many = match max {
        MaxOccurs::Bounded(m) => {
            if m == 0 {
                r.push(TypeModifier::Empty);
                assert(r@ =~= occurrence_modifiers(min, max));
                return r;
            }
            m > 1
        },
        MaxOccurs::Unbounded => true,
    };
    if min == 0 {
        r.push(TypeModifier::Optional);
    } else if !many {
        r.push(TypeModifier::Plain);
    }
    if many {
        r.push(TypeModifier::Vector);
    }
    assert(r@ =~= occurrence_modifiers(min, max));
    r
}

/// A field named `name` for `node`, typed by its `type`, else its `ref`, else
/// by its last inline simple type, named `name` followed by `Type`, else, for an
/// attribute, by `String`.
fn typed_field(
    node: &XsdNode,
    name: String,
    source: StructFieldSource,
    mods: Vec<TypeModifier>,
) -> (r: Result<RsEntity, ParseError>)
    requires
        name@.len() > 0,
    ensures
        field_result(node, name@, source, mods@, r),
        r matches Ok(e) ==> e matches RsEntity::StructField(f) && f.name@.len() > 0
            && f.ty_name@.len() > 0,
{
    let ty = match node.attribute("type") {
        Some(t) => Some(t),
        None => node.attribute("ref"),
    };
    match ty {
        Some(t) => if t.as_str().is_empty() {
            Err(ParseError::MalformedSchema(Malformed::MissingContent))
        } else {
            Ok(
            RsEntity::StructField(
                StructField {
                    name,
                    ty_name: t,
                    comment: node.get_documentation(),
                    subtypes: Vec::new(),
                    source,
                    type_modifiers: mods,
                },
            ),
        )
        },
        None => match node.last_child(ElementType::SimpleType) {
            None => if source == StructFieldSource::Attribute {
                let t = text("String");
                proof {
                    reveal_strlit("String");
                }
                assert(t@ =~= string_type());
                Ok(
                    RsEntity::StructField(
                        StructField {
                            name,
                            ty_name: t,
                            comment: node.get_documentation(),
                            subtypes: Vec::new(),
                            source,
                            type_modifiers: mods,
                        },
                    ),
                )
            } else {
                Err(ParseError::MalformedSchema(Malformed::MissingContent))
            },
            Some(c) => {
                let inner = parse_simple_type(&node.children[c]);
                let ghost inner0 = inner;
                assert(simple_type_result(&node.children@[c as int], inner0));
                match inner {
                    Err(e) => {
                        let r = Err(e);
                        assert(inline_field(node, name@, source, mods@, inner0, r));
                        r
                    },
                    Ok(mut t) => {
                        let ghost t0 = t;
                        let ghost name0 = name@;
                        let ghost mods0 = mods@;
                        let mut tn = name.clone();
                        tn.append("Type");
                        proof {
                            reveal_strlit("Type");
                        }
                        assert(tn@ =~= name@ + type_suffix());
                        t.set_name(tn.clone());
                        let mut subtypes: Vec<RsEntity> = Vec::new();
                        subtypes.push(t);
                        let r = Ok(
                            RsEntity::StructField(
                                StructField {
                                    name,
                                    ty_name: tn,
                                    comment: node.get_documentation(),
                                    subtypes,
                                    source,
                                    type_modifiers: mods,
                                },
                            ),
                        );
                        assert(inline_field(node, name0, source, mods0, inner0, r));
                        r
                    },
                }
            },
        },
    }
}

/// An attribute declaration. At the schema's top it declares a type (see
/// `parse_global_attribute`); inside a type it is a field whose modifier follows
/// its `use`: optional, plain when required, empty when prohibited.
pub fn parse_attribute(node: &XsdNode, parent: &XsdNode) -> (r: Result<RsEntity, ParseError>)
    ensures
        parent.kind() == ElementType::Schema ==> global_attribute_result(node, r),
        parent.kind() != ElementType::Schema ==> local_attribute_result(node, r),
        parent.kind() != ElementType::Schema ==> (r matches Ok(e) ==> e matches RsEntity::StructField(
            f,
        ) && f.name@.len() > 0 && f.ty_name@.len() > 0),
{
    if parent.xsd_type() == ElementType::Schema {
        return parse_global_attribute(node);
    }
    let name = match node.attribute("name") {
        Some(n) => n,
        None => match node.attribute("ref") {
            Some(n) => n,
            None => {
                return Err(ParseError::MalformedSchema(Malformed::MissingName));
            },
        },
    };
    if name.as_str().is_empty() {
        return Err(ParseError::MalformedSchema(Malformed::MissingName));
    }
    let modifier = match attr_use(node) {
        Some(UseType::Optional) => TypeModifier::Optional,
        Some(UseType::Prohibited) => TypeModifier::Empty,
        Some(UseType::Required) => TypeModifier::Plain,
        None => {
            return Err(ParseError::MalformedSchema(Malformed::UnknownUse));
        },
    };
    let mut mods: Vec<TypeModifier> = Vec::new();
    mods.push(modifier);
    assert(mods@ =~= seq![use_modifier(use_of(node.attr("use"@))->0)]);
    typed_field(node, name, StructFieldSource::Attribute, mods)
}

/// An attribute declared at the schema's top: an alias of its `ref` or its
/// `type`, else its last inline simple type under the attribute's name, else an
/// empty record of that name.
pub fn parse_global_attribute(node: &XsdNode) -> (r: Result<RsEntity, ParseError>)
    ensures
        global_attribute_result(node, r),
{
    if let Some(reference) = node.attribute("ref") {
        if reference.as_str().is_empty() {
            return Err(ParseError::MalformedSchema(Malformed::MissingName));
        }
        return Ok(
            RsEntity::Alias(
                Alias {
                    name: reference.clone(),
                    original: reference,
                    comment: node.get_documentation(),
                    subtypes: Vec::new(),
                },
            ),
        );
    }
    let name = match node.attribute("name") {
        Some(n) => n,
        None => {
            return Err(ParseError::MalformedSchema(Malformed::MissingName));
        },
    };
    if name.as_str().is_empty() {
        return Err(ParseError::MalformedSchema(Malformed::MissingName));
    }
    if let Some(ty) = node.attribute("type") {
        if ty.as_str().is_empty() {
            return Err(ParseError::MalformedSchema(Malformed::MissingContent));
        }
        return Ok(
            RsEntity::Alias(
                Alias {
                    name,
                    original: ty,
                    comment: node.get_documentation(),
                    subtypes: Vec::new(),
                },
            ),
        );
    }
    match node.last_child(ElementType::SimpleType) {
        Some(c) => {
            let inner = parse_simple_type(&node.children[c]);
            let ghost inner0 = inner;
            assert(simple_type_result(&node.children@[c as int], inner0));
            let ghost name0 = name@;
            match inner {
                Err(e) => {
                    let r = Err(e);
                    assert(simple_type_result(
                        &node.children@[last_of_kind(node.children@, ElementType::SimpleType)->0],
                        inner0,
                    ) && inline_global(node.attr("name"@)->0, inner0, r));
                    r
                },
                Ok(mut t) => {
                    t.set_name(name);
                    let r = Ok(t);
                    assert(simple_type_result(
                        &node.children@[last_of_kind(node.children@, ElementType::SimpleType)->0],
                        inner0,
                    ) && inline_global(node.attr("name"@)->0, inner0, r));
                    r
                },
            }
        },
        None => Ok(
            RsEntity::Struct(
                Struct { name, comment: None, fields: Vec::new(), subtypes: Vec::new() },
            ),
        ),
    }
}

/// An element declared inside `parent`: a field whose modifiers follow its
/// occurrence bounds, from a choice when `parent` is a `choice`.
pub fn parse_element_field(node: &XsdNode, parent: &XsdNode) -> (r: Result<RsEntity, ParseError>)
    ensures
        element_field_result(node, parent, r),
        r matches Ok(e) ==> e matches RsEntity::StructField(f) && f.name@.len() > 0
            && f.ty_name@.len() > 0,
{
    let source = if parent.xsd_type() == ElementType::Choice {
        StructFieldSource::Choice
    } else {
        StructFieldSource::Element
    };
    let name = match node.attribute("name") {
        Some(n) => n,
        None => match node.attribute("ref") {
            Some(n) => n,
            None => {
                return Err(ParseError::MalformedSchema(Malformed::MissingName));
            },
        },
    };
    if name.as_str().is_empty() {
        return Err(ParseError::MalformedSchema(Malformed::MissingName));
    }
    let (lo, hi) = match (attr_min_occurs(node), attr_max_occurs(node)) {
        (Some(lo), Some(hi)) => (lo, hi),
        _ => {
            return Err(ParseError::MalformedSchema(Malformed::BadOccurs));
        },
    };
    let bad = match hi {
        MaxOccurs::Bounded(m) => lo > m,
        MaxOccurs::Unbounded => false,
    };
    if bad {
        return Err(ParseError::MalformedSchema(Malformed::BadOccurs));
    }
    typed_field(node, name, source, type_modifiers(lo, hi))
}

/// What `parse_node` gives for `node` inside `parent`.
pub open spec fn node_result(n: &XsdNode, parent: &XsdNode, r: Result<RsEntity, ParseError>) -> bool {
    if n.kind() == ElementType::Attribute {
        if parent.kind() == ElementType::Schema {
            global_attribute_result(n, r)
        } else {
            local_attribute_result(n, r)
        }
    } else if n.kind() == ElementType::SimpleType {
        simple_type_result(n, r)
    } else if n.kind() == ElementType::Element && parent.kind() != ElementType::Schema {
        element_field_result(n, parent, r)
    } else {
        r == Err::<RsEntity, ParseError>(ParseError::UnsupportedConstruct(n.kind()))
    }
}

/// Parses `node`, declared inside `parent`, by what it declares; other
/// constructs are refused with their kind.
pub fn parse_node(node: &XsdNode, parent: &XsdNode) -> (r: Result<RsEntity, ParseError>)
    ensures
        node_result(node, parent, r),
{
    let kind = node.xsd_type();
    match kind {
        ElementType::Attribute => parse_attribute(node, parent),
        ElementType::SimpleType => parse_simple_type(node),
        ElementType::Element => if parent.xsd_type() != ElementType::Schema {
            parse_element_field(node, parent)
        } else {
            Err(ParseError::UnsupportedConstruct(kind))
        },
        _ => Err(ParseError::UnsupportedConstruct(kind)),
    }
}

/// Occurrence bounds decide the modifiers: exactly one occurrence (or at least
/// one and at most one) is a plain field, at most one is optional, more than one
/// or no upper bound is a list, and such a list is optional when the least is zero.
pub proof fn lemma_occurrence_table(min: u64, n: u64)
    requires
        n > 1,
    ensures
        occurrence_modifiers(0, MaxOccurs::Bounded(1)) == seq![TypeModifier::Optional],
        min >= 1 ==> occurrence_modifiers(min, MaxOccurs::Bounded(1)) == seq![TypeModifier::Plain],
        occurrence_modifiers(0, MaxOccurs::Bounded(n)) == seq![
            TypeModifier::Optional,
            TypeModifier::Vector,
        ],
        min >= 1 ==> occurrence_modifiers(min, MaxOccurs::Bounded(n)) == seq![
            TypeModifier::Vector,
        ],
        occurrence_modifiers(0, MaxOccurs::Unbounded) == seq![
            TypeModifier::Optional,
            TypeModifier::Vector,
        ],
        min >= 1 ==> occurrence_modifiers(min, MaxOccurs::Unbounded) == seq![TypeModifier::Vector],
{
}

/// The least number of occurrences that an attribute's `use` stands for: one when
/// required, zero otherwise.
pub open spec fn use_min(u: UseType) -> u64 {
    if u == UseType::Required {
        1
    } else {
        0
    }
}

/// An attribute occurs at most once, so a parsed attribute field follows the
/// at-most-one row of the occurrence table: optional when its `use` is optional
/// or absent, plain when required; a prohibited one is empty. It is never a list.
pub proof fn lemma_attribute_occurrence(n: &XsdNode, r: Result<RsEntity, ParseError>)
    requires
        local_attribute_result(n, r),
        r is Ok,
    ensures
        r->Ok_0 is StructField,
        use_of(n.attr("use"@)) is Some,
        ({
            let u = use_of(n.attr("use"@))->0;
            let f = r->Ok_0->StructField_0;
            &&& u != UseType::Prohibited ==> f.type_modifiers@ == occurrence_modifiers(
                use_min(u),
                MaxOccurs::Bounded(1),
            )
            &&& u == UseType::Prohibited ==> f.type_modifiers@ == seq![TypeModifier::Empty]
            &&& !f.type_modifiers@.contains(TypeModifier::Vector)
        }),
{
    let u = use_of(n.attr("use"@))->0;
    let name = name_or_ref(n)->0;
    assert(field_result(n, name, StructFieldSource::Attribute, seq![use_modifier(u)], r));
    if type_or_ref(n) is None && last_of_kind(n.children@, ElementType::SimpleType) is Some {
        let inner = choose|inner: Result<RsEntity, ParseError>|
            simple_type_result(&n.children@[last_of_kind(n.children@, ElementType::SimpleType)->0], inner)
                && inline_field(n, name, StructFieldSource::Attribute, seq![use_modifier(u)], inner, r);
        assert(inline_field(n, name, StructFieldSource::Attribute, seq![use_modifier(u)], inner, r));
    }
    let f = r->Ok_0->StructField_0;
    assert(f.type_modifiers@ == seq![use_modifier(u)]);
    assert(seq![use_modifier(u)][0] == use_modifier(u));
}

} // verus!
