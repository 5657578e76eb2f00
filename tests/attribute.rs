use xsd_parser::node::{ElementType, XsdNode};
use xsd_parser::parser::{
    enum_case_name, guard_leading_digit, parse_attribute, parse_element_field, parse_global_attribute, parse_node, parse_simple_type,
    parse_count, type_modifiers, Malformed, MaxOccurs, ParseError,
};
use xsd_parser::types::{FacetType, RsEntity, StructFieldSource, TypeModifier};

fn el(tag: &str, attrs: &[(&str, &str)], children: Vec<XsdNode>) -> XsdNode {
    XsdNode {
        tag: tag.to_string(),
        attributes: attrs.iter().map(|(k, v)| (k.to_string(), v.to_string())).collect(),
        children,
        text: None,
    }
}

fn doc(text: &str) -> XsdNode {
    let mut d = el("documentation", &[], vec![]);
    d.text = Some(text.to_string());
    el("annotation", &[], vec![d])
}

fn schema(children: Vec<XsdNode>) -> XsdNode {
    el(
        "schema",
        &[("targetNamespace", "http://www.w3.org/2005/05/xmlmime")],
        children,
    )
}

fn find_child<'a>(node: &'a XsdNode, tag: &str) -> Option<&'a XsdNode> {
    node.children.iter().find(|c| c.tag == tag)
}

#[test]
fn test_global_attribute_with_nested_type() {
    let schema = schema(vec![el(
        "attribute",
        &[("name", "contentType")],
        vec![el(
            "simpleType",
            &[],
            vec![el(
                "restriction",
                &[("base", "xs:string")],
                vec![el("minLength", &[("value", "3")], vec![])],
            )],
        )],
    )]);
    let attribute = find_child(&schema, "attribute").unwrap();
    match parse_global_attribute(attribute) {
        Ok(RsEntity::TupleStruct(ts)) => {
            assert_eq!(ts.name, "contentType");
            assert_eq!(ts.ty_name, "xs:string");
            assert_eq!(ts.facets.len(), 1);
            assert_eq!(ts.facets[0].facet_type, FacetType::MinLength);
            assert_eq!(ts.facets[0].value, "3");
        }
        _ => unreachable!("Test Failed!"),
    }
}

#[test]
fn test_global_attribute_with_type() {
    let schema = schema(vec![el(
        "attribute",
        &[("name", "expectedContentTypes"), ("type", "xs:string")],
        vec![],
    )]);
    let attribute = find_child(&schema, "attribute").unwrap();
    match parse_global_attribute(attribute) {
        Ok(RsEntity::Alias(ts)) => {
            assert_eq!(ts.name, "expectedContentTypes");
            assert_eq!(ts.original, "xs:string");
            assert_eq!(ts.subtypes.len(), 0);
        }
        _ => unreachable!("Test Failed!"),
    }
}

#[test]
fn global_attribute_through_dispatch() {
    let schema = schema(vec![el(
        "attribute",
        &[("name", "expectedContentTypes"), ("type", "xs:string")],
        vec![],
    )]);
    match parse_node(&schema.children[0], &schema) {
        Ok(RsEntity::Alias(a)) => {
            assert_eq!(a.name, "expectedContentTypes");
            assert_eq!(a.original, "xs:string");
        }
        _ => panic!("expected an alias"),
    }
}

#[test]
fn global_attribute_by_ref_is_alias_of_itself() {
    let node = el("attribute", &[("ref", "xml:lang")], vec![doc("The language.")]);
    match parse_global_attribute(&node) {
        Ok(RsEntity::Alias(a)) => {
            assert_eq!(a.name, "xml:lang");
            assert_eq!(a.original, "xml:lang");
            assert_eq!(a.comment.as_deref(), Some("The language."));
        }
        _ => panic!("expected an alias"),
    }
}

#[test]
fn global_attribute_without_type_is_empty_struct() {
    let node = el("attribute", &[("name", "bare")], vec![]);
    match parse_global_attribute(&node) {
        Ok(RsEntity::Struct(s)) => {
            assert_eq!(s.name, "bare");
            assert!(s.fields.is_empty());
            assert!(s.subtypes.is_empty());
            assert!(s.comment.is_none());
        }
        _ => panic!("expected a struct"),
    }
}

#[test]
fn global_attribute_without_name_is_malformed() {
    let node = el("attribute", &[("type", "xs:string")], vec![]);
    assert_eq!(
        parse_global_attribute(&node).err(),
        Some(ParseError::MalformedSchema(Malformed::MissingName))
    );
}

#[test]
fn optional_local_attribute_with_ref() {
    let parent = el("complexType", &[("name", "Link")], vec![]);
    let node = el("attribute", &[("ref", "xlink:href"), ("use", "optional")], vec![]);
    match parse_attribute(&node, &parent) {
        Ok(RsEntity::StructField(f)) => {
            assert_eq!(f.name, "xlink:href");
            assert_eq!(f.ty_name, "xlink:href");
            assert_eq!(f.source, StructFieldSource::Attribute);
            assert_eq!(f.type_modifiers, vec![TypeModifier::Optional]);
            assert!(f.subtypes.is_empty());
        }
        _ => panic!("expected a field"),
    }
}

#[test]
fn local_attribute_use_modifiers() {
    let parent = el("complexType", &[], vec![]);
    let cases = [
        (Some("required"), TypeModifier::Plain),
        (Some("prohibited"), TypeModifier::Empty),
        (None, TypeModifier::Optional),
    ];
    for (u, m) in cases {
        let mut attrs = vec![("name", "id"), ("type", "xs:ID")];
        if let Some(u) = u {
            attrs.push(("use", u));
        }
        let node = el("attribute", &attrs, vec![]);
        match parse_attribute(&node, &parent) {
            Ok(RsEntity::StructField(f)) => {
                assert_eq!(f.name, "id");
                assert_eq!(f.ty_name, "xs:ID");
                assert_eq!(f.type_modifiers, vec![m]);
            }
            _ => panic!("expected a field"),
        }
    }
}

#[test]
fn local_attribute_errors() {
    let parent = el("complexType", &[], vec![]);
    let nameless = el("attribute", &[("type", "xs:string")], vec![]);
    assert_eq!(
        parse_attribute(&nameless, &parent).err(),
        Some(ParseError::MalformedSchema(Malformed::MissingName))
    );
    let bad_use = el("attribute", &[("name", "a"), ("use", "sometimes")], vec![]);
    assert_eq!(
        parse_attribute(&bad_use, &parent).err(),
        Some(ParseError::MalformedSchema(Malformed::UnknownUse))
    );
    let empty_name = el("attribute", &[("name", ""), ("type", "xs:string")], vec![]);
    assert_eq!(
        parse_attribute(&empty_name, &parent).err(),
        Some(ParseError::MalformedSchema(Malformed::MissingName))
    );
    let empty_type = el("attribute", &[("name", "a"), ("type", "")], vec![]);
    assert_eq!(
        parse_attribute(&empty_type, &parent).err(),
        Some(ParseError::MalformedSchema(Malformed::MissingContent))
    );
}

#[test]
fn attribute_without_type_defaults_to_string() {
    let parent = el("complexType", &[], vec![]);
    let node = el("attribute", &[("name", "label"), ("use", "required")], vec![]);
    match parse_attribute(&node, &parent) {
        Ok(RsEntity::StructField(f)) => {
            assert_eq!(f.name, "label");
            assert_eq!(f.ty_name, "String");
            assert_eq!(f.source, StructFieldSource::Attribute);
            assert_eq!(f.type_modifiers, vec![TypeModifier::Plain]);
            assert!(f.subtypes.is_empty());
        }
        _ => panic!("expected a field"),
    }
}

#[test]
fn empty_names_are_refused() {
    let global_name = el("attribute", &[("name", ""), ("type", "xs:string")], vec![]);
    assert_eq!(
        parse_global_attribute(&global_name).err(),
        Some(ParseError::MalformedSchema(Malformed::MissingName))
    );
    let global_ref = el("attribute", &[("ref", "")], vec![]);
    assert_eq!(
        parse_global_attribute(&global_ref).err(),
        Some(ParseError::MalformedSchema(Malformed::MissingName))
    );
    let seq = el("sequence", &[], vec![]);
    let element = el("element", &[("name", ""), ("type", "xs:int")], vec![]);
    assert_eq!(
        parse_element_field(&element, &seq).err(),
        Some(ParseError::MalformedSchema(Malformed::MissingName))
    );
    let no_type = el("element", &[("name", "a")], vec![]);
    assert_eq!(
        parse_element_field(&no_type, &seq).err(),
        Some(ParseError::MalformedSchema(Malformed::MissingContent))
    );
}

#[test]
fn local_attribute_with_inline_type() {
    let parent = el("complexType", &[], vec![]);
    let node = el(
        "attribute",
        &[("name", "size"), ("use", "required")],
        vec![
            doc("Size in points."),
            el(
                "simpleType",
                &[],
                vec![el(
                    "restriction",
                    &[("base", "xs:int")],
                    vec![el("maxInclusive", &[("value", "72")], vec![])],
                )],
            ),
        ],
    );
    match parse_attribute(&node, &parent) {
        Ok(RsEntity::StructField(f)) => {
            assert_eq!(f.name, "size");
            assert_eq!(f.ty_name, "sizeType");
            assert_eq!(f.comment.as_deref(), Some("Size in points."));
            assert_eq!(f.type_modifiers, vec![TypeModifier::Plain]);
            assert_eq!(f.subtypes.len(), 1);
            match &f.subtypes[0] {
                RsEntity::TupleStruct(t) => {
                    assert_eq!(t.name, "sizeType");
                    assert_eq!(t.ty_name, "xs:int");
                    assert_eq!(t.facets[0].facet_type, FacetType::MaxInclusive);
                    assert_eq!(t.facets[0].value, "72");
                }
                _ => panic!("expected a newtype"),
            }
        }
        _ => panic!("expected a field"),
    }
}

#[test]
fn sequence_with_unbounded_element() {
    let seq = el("sequence", &[], vec![]);
    let node = el(
        "element",
        &[("name", "item"), ("type", "xs:int"), ("maxOccurs", "unbounded")],
        vec![],
    );
    match parse_node(&node, &seq) {
        Ok(RsEntity::StructField(f)) => {
            assert_eq!(f.name, "item");
            assert_eq!(f.ty_name, "xs:int");
            assert_eq!(f.source, StructFieldSource::Element);
            assert_eq!(f.type_modifiers, vec![TypeModifier::Vector]);
        }
        _ => panic!("expected a field"),
    }
}

#[test]
fn element_in_choice_and_occurrence_errors() {
    let choice = el("choice", &[], vec![]);
    let node = el("element", &[("name", "a"), ("type", "xs:int"), ("minOccurs", "0")], vec![]);
    match parse_element_field(&node, &choice) {
        Ok(RsEntity::StructField(f)) => {
            assert_eq!(f.source, StructFieldSource::Choice);
            assert_eq!(f.type_modifiers, vec![TypeModifier::Optional]);
        }
        _ => panic!("expected a field"),
    }
    let seq = el("sequence", &[], vec![]);
    let reversed = el(
        "element",
        &[("name", "a"), ("type", "xs:int"), ("minOccurs", "3"), ("maxOccurs", "2")],
        vec![],
    );
    assert_eq!(
        parse_element_field(&reversed, &seq).err(),
        Some(ParseError::MalformedSchema(Malformed::BadOccurs))
    );
    let garbage = el("element", &[("name", "a"), ("type", "xs:int"), ("maxOccurs", "many")], vec![]);
    assert_eq!(
        parse_element_field(&garbage, &seq).err(),
        Some(ParseError::MalformedSchema(Malformed::BadOccurs))
    );
}

#[test]
fn occurrence_table() {
    assert_eq!(type_modifiers(0, MaxOccurs::Bounded(1)), vec![TypeModifier::Optional]);
    assert_eq!(type_modifiers(1, MaxOccurs::Bounded(1)), vec![TypeModifier::Plain]);
    assert_eq!(
        type_modifiers(0, MaxOccurs::Bounded(5)),
        vec![TypeModifier::Optional, TypeModifier::Vector]
    );
    assert_eq!(type_modifiers(1, MaxOccurs::Bounded(5)), vec![TypeModifier::Vector]);
    assert_eq!(
        type_modifiers(0, MaxOccurs::Unbounded),
        vec![TypeModifier::Optional, TypeModifier::Vector]
    );
    assert_eq!(type_modifiers(1, MaxOccurs::Unbounded), vec![TypeModifier::Vector]);
    assert_eq!(type_modifiers(0, MaxOccurs::Bounded(0)), vec![TypeModifier::Empty]);
}

#[test]
fn enumerated_simple_type() {
    let node = el(
        "simpleType",
        &[("name", "Color")],
        vec![el(
            "restriction",
            &[("base", "xs:string")],
            vec![
                el("enumeration", &[("value", "red")], vec![]),
                el("enumeration", &[("value", "green")], vec![]),
            ],
        )],
    );
    match parse_simple_type(&node) {
        Ok(RsEntity::Enum(e)) => {
            assert_eq!(e.name, "Color");
            assert_eq!(e.ty_name, "xs:string");
            assert_eq!(e.cases.len(), 2);
            assert_eq!(e.cases[0].name, "Red");
            assert_eq!(e.cases[0].value, "red");
            assert_eq!(e.cases[1].name, "Green");
            assert_eq!(e.cases[1].value, "green");
        }
        _ => panic!("expected an enum"),
    }
}

#[test]
fn enum_case_starting_with_digit() {
    let node = el(
        "simpleType",
        &[("name", "Rank")],
        vec![el(
            "restriction",
            &[("base", "xs:string")],
            vec![el("enumeration", &[("value", "1st")], vec![])],
        )],
    );
    match parse_simple_type(&node) {
        Ok(RsEntity::Enum(e)) => {
            assert!(e.cases[0].name.starts_with("_1"));
            assert_eq!(e.cases[0].value, "1st");
        }
        _ => panic!("expected an enum"),
    }
}

#[test]
fn simple_type_errors() {
    let no_base = el(
        "simpleType",
        &[],
        vec![el("restriction", &[], vec![])],
    );
    assert_eq!(
        parse_simple_type(&no_base).err(),
        Some(ParseError::MalformedSchema(Malformed::MissingBase))
    );
    let no_value = el(
        "simpleType",
        &[],
        vec![el("restriction", &[("base", "xs:string")], vec![el("enumeration", &[], vec![])])],
    );
    assert_eq!(
        parse_simple_type(&no_value).err(),
        Some(ParseError::MalformedSchema(Malformed::MissingValue))
    );
    let list = el("simpleType", &[], vec![el("list", &[], vec![])]);
    assert_eq!(
        parse_simple_type(&list).err(),
        Some(ParseError::MalformedSchema(Malformed::MissingContent))
    );
    let union = el("simpleType", &[], vec![el("union", &[("memberTypes", "  ")], vec![])]);
    assert_eq!(
        parse_simple_type(&union).err(),
        Some(ParseError::MalformedSchema(Malformed::MissingContent))
    );
    let empty = el("simpleType", &[], vec![]);
    assert_eq!(
        parse_simple_type(&empty).err(),
        Some(ParseError::MalformedSchema(Malformed::MissingContent))
    );
}

#[test]
fn unsupported_construct() {
    let parent = el("schema", &[], vec![]);
    let node = el("complexType", &[("name", "T")], vec![]);
    assert_eq!(
        parse_node(&node, &parent).err(),
        Some(ParseError::UnsupportedConstruct(ElementType::ComplexType))
    );
}

#[test]
fn classification_and_documentation() {
    let node = el("minLength", &[("value", "3")], vec![]);
    assert_eq!(node.xsd_type(), ElementType::Facet(FacetType::MinLength));
    assert_eq!(el("bogus", &[], vec![]).xsd_type(), ElementType::Unknown);
    let with_doc = el("attribute", &[("name", "a")], vec![doc("Text here.")]);
    assert_eq!(with_doc.get_documentation().as_deref(), Some("Text here."));
    assert_eq!(with_doc.attribute("name").as_deref(), Some("a"));
    assert!(!with_doc.has_attribute("type"));
}

#[test]
fn digit_guard_on_case_names() {
    assert_eq!(guard_leading_digit("1st".to_string()), "_1st");
    assert_eq!(guard_leading_digit("Red".to_string()), "Red");
    assert_eq!(guard_leading_digit(String::new()), "");
    assert_eq!(enum_case_name("green"), "Green");
}

#[test]
fn occurrence_counts() {
    assert_eq!(parse_count("0000000000000000001"), Some(1));
    assert_eq!(parse_count("18446744073709551615"), Some(u64::MAX));
    assert_eq!(parse_count("18446744073709551616"), None);
    assert_eq!(parse_count("42"), Some(42));
    assert_eq!(parse_count(""), None);
    assert_eq!(parse_count("1a"), None);
}

#[test]
fn documentation_is_concatenated() {
    let mut first = el("documentation", &[], vec![]);
    first.text = Some("First part.".to_string());
    let mut second = el("documentation", &[], vec![]);
    second.text = Some("Second part.".to_string());
    let mut third = el("documentation", &[], vec![]);
    third.text = Some("Third part.".to_string());
    let node = el(
        "attribute",
        &[("name", "a")],
        vec![
            el("annotation", &[], vec![first, second]),
            el("annotation", &[], vec![third]),
        ],
    );
    assert_eq!(
        node.get_documentation().as_deref(),
        Some("First part.\nSecond part.\nThird part.")
    );
    assert_eq!(el("attribute", &[], vec![]).get_documentation(), None);
}

#[test]
fn list_simple_type_in_attributes() {
    let parent = el("complexType", &[], vec![]);
    let node = el(
        "attribute",
        &[("name", "a")],
        vec![el("simpleType", &[], vec![el("list", &[("itemType", "xs:int")], vec![])])],
    );
    match parse_attribute(&node, &parent) {
        Ok(RsEntity::StructField(f)) => {
            assert_eq!(f.name, "a");
            assert_eq!(f.ty_name, "aType");
            assert_eq!(f.subtypes.len(), 1);
            match &f.subtypes[0] {
                RsEntity::TupleStruct(t) => {
                    assert_eq!(t.name, "aType");
                    assert_eq!(t.ty_name, "xs:int");
                    assert_eq!(t.type_modifiers, vec![TypeModifier::Vector]);
                    assert!(t.facets.is_empty());
                }
                _ => panic!("expected a newtype"),
            }
        }
        _ => panic!("expected a field"),
    }
    match parse_global_attribute(&node) {
        Ok(RsEntity::TupleStruct(t)) => {
            assert_eq!(t.name, "a");
            assert_eq!(t.ty_name, "xs:int");
            assert_eq!(t.type_modifiers, vec![TypeModifier::Vector]);
        }
        _ => panic!("expected a newtype"),
    }
}

#[test]
fn union_simple_type() {
    let node = el(
        "simpleType",
        &[("name", "Size")],
        vec![el("union", &[("memberTypes", " xs:int  sizeName ")], vec![])],
    );
    match parse_simple_type(&node) {
        Ok(RsEntity::Enum(e)) => {
            assert_eq!(e.name, "Size");
            assert_eq!(e.ty_name, "String");
            assert_eq!(e.cases.len(), 2);
            assert_eq!(e.cases[0].value, "xs:int");
            assert_eq!(e.cases[0].name, "XsInt");
            assert_eq!(e.cases[1].value, "sizeName");
            assert_eq!(e.cases[1].name, "SizeName");
        }
        _ => panic!("expected an enum"),
    }
}
