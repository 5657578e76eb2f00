//! Schema elements as plain values: tag, attributes, child elements and text.
use vstd::prelude::*;
use vstd::string::StringExecFns;
use crate::comment::{chars_of, push_char};
use crate::types::{opt_text, FacetType};

verus! {

/// What an element of a schema declares, by its tag.
#[derive(PartialEq, Eq, Structural, Clone, Copy, Debug)]
pub enum ElementType {
    Schema,
    Element,
    Attribute,
    AttributeGroup,
    SimpleType,
    ComplexType,
    SimpleContent,
    ComplexContent,
    Sequence,
    Choice,
    All,
    Group,
    Restriction,
    Extension,
    Union,
    List,
    Enumeration,
    Facet(FacetType),
    Annotation,
    Documentation,
    Import,
    Any,
    AnyAttribute,
    Unknown,
}

/// One element of a schema document.
#[derive(Debug)]
pub struct XsdNode {
    /// The tag's local name, without its namespace prefix.
    pub tag: String,
    /// The attributes, by their local names, in document order.
    pub attributes: Vec<(String, String)>,
    /// The child elements, in document order.
    pub children: Vec<XsdNode>,
    /// The text directly inside the element, if any.
    pub text: Option<String>,
}

/// The kind of element that a tag declares.
pub open spec fn kind_of(tag: Seq<char>) -> ElementType {
    if tag == "schema"@ {
        ElementType::Schema
    } else if tag == "element"@ {
        ElementType::Element
    } else if tag == "attribute"@ {
        ElementType::Attribute
    } else if tag == "attributeGroup"@ {
        ElementType::AttributeGroup
    } else if tag == "simpleType"@ {
        ElementType::SimpleType
    } else if tag == "complexType"@ {
        ElementType::ComplexType
    } else if tag == "simpleContent"@ {
        ElementType::SimpleContent
    } else if tag == "complexContent"@ {
        ElementType::ComplexContent
    } else if tag == "sequence"@ {
        ElementType::Sequence
    } else if tag == "choice"@ {
        ElementType::Choice
    } else if tag == "all"@ {
        ElementType::All
    } else if tag == "group"@ {
        ElementType::Group
    } else if tag == "restriction"@ {
        ElementType::Restriction
    } else if tag == "extension"@ {
        ElementType::Extension
    } else if tag == "union"@ {
        ElementType::Union
    } else if tag == "list"@ {
        ElementType::List
    } else if tag == "enumeration"@ {
        ElementType::Enumeration
    } else if tag == "minInclusive"@ {
        ElementType::Facet(FacetType::MinInclusive)
    } else if tag == "maxInclusive"@ {
        ElementType::Facet(FacetType::MaxInclusive)
    } else if tag == "minExclusive"@ {
        ElementType::Facet(FacetType::MinExclusive)
    } else if tag == "maxExclusive"@ {
        ElementType::Facet(FacetType::MaxExclusive)
    } else if tag == "length"@ {
        ElementType::Facet(FacetType::Length)
    } else if tag == "minLength"@ {
        ElementType::Facet(FacetType::MinLength)
    } else if tag == "maxLength"@ {
        ElementType::Facet(FacetType::MaxLength)
    } else if tag == "pattern"@ {
        ElementType::Facet(FacetType::Pattern)
    } else if tag == "whiteSpace"@ {
        ElementType::Facet(FacetType::WhiteSpace)
    } else if tag == "totalDigits"@ {
        ElementType::Facet(FacetType::TotalDigits)
    } else if tag == "fractionDigits"@ {
        ElementType::Facet(FacetType::FractionDigits)
    } else if tag == "annotation"@ {
        ElementType::Annotation
    } else if tag == "documentation"@ {
        ElementType::Documentation
    } else if tag == "import"@ {
        ElementType::Import
    } else if tag == "any"@ {
        ElementType::Any
    } else if tag == "anyAttribute"@ {
        ElementType::AnyAttribute
    } else {
        ElementType::Unknown
    }
}

/// The value of the first attribute named `key`.
pub open spec fn attr_of(attrs: Seq<(String, String)>, key: Seq<char>) -> Option<Seq<char>>
    decreases attrs.len(),
{
    if attrs.len() == 0 {
        None
    } else if attrs[0].0@ == key {
        Some(attrs[0].1@)
    } else {
        attr_of(attrs.drop_first(), key)
    }
}

/// Index of the first of `nodes` of kind `k`.
pub open spec fn first_of_kind(nodes: Seq<XsdNode>, k: ElementType) -> Option<int>
    decreases nodes.len(),
{
    if nodes.len() == 0 {
        None
    } else if kind_of(nodes[0].tag@) == k {
        Some(0)
    } else {
        match first_of_kind(nodes.drop_first(), k) {
            Some(i) => Some(i + 1),
            None => None,
        }
    }
}

/// Index of the last of `nodes` of kind `k`.
pub open spec fn last_of_kind(nodes: Seq<XsdNode>, k: ElementType) -> Option<int>
    decreases nodes.len(),
{
    if nodes.len() == 0 {
        None
    } else if kind_of(nodes.last().tag@) == k {
        Some(nodes.len() - 1)
    } else {
        last_of_kind(nodes.drop_last(), k)
    }
}

/// `acc` followed by `t`, with a line feed between where both are non-empty.
pub open spec fn join_line(acc: Seq<char>, t: Seq<char>) -> Seq<char> {
    if t.len() == 0 {
        acc
    } else if acc.len() == 0 {
        t
    } else {
        acc.push('\n') + t
    }
}

/// `acc` followed by the texts of the `documentation` elements among `ns`.
pub open spec fn doc_fold(acc: Seq<char>, ns: Seq<XsdNode>) -> Seq<char>
    decreases ns.len(),
{
    if ns.len() == 0 {
        acc
    } else {
        let before = doc_fold(acc, ns.drop_last());
        if kind_of(ns.last().tag@) == ElementType::Documentation && ns.last().text is Some {
            join_line(before, ns.last().text->0@)
        } else {
            before
        }
    }
}

/// The documentation texts of all the `annotation` elements among `ns`.
pub open spec fn annotation_text(ns: Seq<XsdNode>) -> Seq<char>
    decreases ns.len(),
{
    if ns.len() == 0 {
        seq![]
    } else {
        let before = annotation_text(ns.drop_last());
        if kind_of(ns.last().tag@) == ElementType::Annotation {
            doc_fold(before, ns.last().children@)
        } else {
            before
        }
    }
}

/// Whether `a` and `b` hold the same characters.
pub fn same_text(a: &str, b: &str) -> (r: bool)
    ensures
        r == (a@ == b@),
{
    let x = chars_of(a);
    let y = chars_of(b);
    if x.len() != y.len() {
        return false;
    }
    let mut i: usize = 0;
    while i < x.len()
        invariant
            x@ == a@,
            y@ == b@,
            x.len() == y.len(),
            i <= x.len(),
            forall|j: int| 0 <= j < i ==> x@[j] == y@[j],
        decreases x.len() - i,
    {
        if x[i] != y[i] {
            return false;
        }
        i = i + 1;
    }
    assert(x@ =~= y@);
    true
}

impl XsdNode {
    pub open spec fn kind(&self) -> ElementType {
        kind_of(self.tag@)
    }

    pub open spec fn attr(&self, key: Seq<char>) -> Option<Seq<char>> {
        attr_of(self.attributes@, key)
    }

    /// The texts of all `documentation` elements of all `annotation` children,
    /// in document order, joined by line feeds; `None` where there is no text.
    pub open spec fn documentation(&self) -> Option<Seq<char>> {
        let t = annotation_text(self.children@);
        if t.len() == 0 {
            None
        } else {
            Some(t)
        }
    }

    /// What this element declares.
    pub fn xsd_type(&self) -> (r: ElementType)
        ensures
            r == self.kind(),
    {
        let t = self.tag.as_str();
        if same_text(t, "schema") {
            ElementType::Schema
        } else if same_text(t, "element") {
            ElementType::Element
        } else if same_text(t, "attribute") {
            ElementType::Attribute
        } else if same_text(t, "attributeGroup") {
            ElementType::AttributeGroup
        } else if same_text(t, "simpleType") {
            ElementType::SimpleType
        } else if same_text(t, "complexType") {
            ElementType::ComplexType
        } else if same_text(t, "simpleContent") {
            ElementType::SimpleContent
        } else if same_text(t, "complexContent") {
            ElementType::ComplexContent
        } else if same_text(t, "sequence") {
            ElementType::Sequence
        } else if same_text(t, "choice") {
            ElementType::Choice
        } else if same_text(t, "all") {
            ElementType::All
        } else if same_text(t, "group") {
            ElementType::Group
        } else if same_text(t, "restriction") {
            ElementType::Restriction
        } else if same_text(t, "extension") {
            ElementType::Extension
        } else if same_text(t, "union") {
            ElementType::Union
        } else if same_text(t, "list") {
            ElementType::List
        } else if same_text(t, "enumeration") {
            ElementType::Enumeration
        } else if same_text(t, "minInclusive") {
            ElementType::Facet(FacetType::MinInclusive)
        } else if same_text(t, "maxInclusive") {
            ElementType::Facet(FacetType::MaxInclusive)
        } else if same_text(t, "minExclusive") {
            ElementType::Facet(FacetType::MinExclusive)
        } else if same_text(t, "maxExclusive") {
            ElementType::Facet(FacetType::MaxExclusive)
        } else if same_text(t, "length") {
            ElementType::Facet(FacetType::Length)
        } else if same_text(t, "minLength") {
            ElementType::Facet(FacetType::MinLength)
        } else if same_text(t, "maxLength") {
            ElementType::Facet(FacetType::MaxLength)
        } else if same_text(t, "pattern") {
            ElementType::Facet(FacetType::Pattern)
        } else if same_text(t, "whiteSpace") {
            ElementType::Facet(FacetType::WhiteSpace)
        } else if same_text(t, "totalDigits") {
            ElementType::Facet(FacetType::TotalDigits)
        } else if same_text(t, "fractionDigits") {
            ElementType::Facet(FacetType::FractionDigits)
        } else if same_text(t, "annotation") {
            ElementType::Annotation
        } else if same_text(t, "documentation") {
            ElementType::Documentation
        } else if same_text(t, "import") {
            ElementType::Import
        } else if same_text(t, "any") {
            ElementType::Any
        } else if same_text(t, "anyAttribute") {
            ElementType::AnyAttribute
        } else {
            ElementType::Unknown
        }
    }

    /// The value of the attribute named `key`, if the element has one.
    pub fn attribute(&self, key: &str) -> (r: Option<String>)
        ensures
            opt_text(r) == self.attr(key@),
    {
        let mut i: usize = 0;
        assert(self.attributes@.skip(0) =~= self.attributes@);
        while i < self.attributes.len()
            invariant
                i <= self.attributes.len(),
                self.attr(key@) == attr_of(self.attributes@.skip(i as int), key@),
            decreases self.attributes.len() - i,
        {
            assert(self.attributes@.skip(i as int).drop_first() =~= self.attributes@.skip(
                i + 1,
            ));
            if same_text(self.attributes[i].0.as_str(), key) {
                return Some(self.attributes[i].1.clone());
            }
            i = i + 1;
        }
        None
    }

    pub fn has_attribute(&self, key: &str) -> (r: bool)
        ensures
            r == self.attr(key@) is Some,
    {
        self.attribute(key).is_some()
    }

    /// Index of the first child of kind `k`.
    pub fn first_child(&self, k: ElementType) -> (r: Option<usize>)
        ensures
            r matches Some(i) ==> i < self.children.len() && first_of_kind(self.children@, k)
                == Some(i as int),
            r is None ==> first_of_kind(self.children@, k) is None,
    {
        let mut i: usize = 0;
        assert(self.children@.skip(0) =~= self.children@);
        while i < self.children.len()
            invariant
                i <= self.children.len(),
                first_of_kind(self.children@, k) == match first_of_kind(
                    self.children@.skip(i as int),
                    k,
                ) {
                    Some(j) => Some(j + i),
                    None => None,
                },
            decreases self.children.len() - i,
        {
            assert(self.children@.skip(i as int).drop_first() =~= self.children@.skip(i + 1));
            if self.children[i].xsd_type() == k {
                return Some(i);
            }
            i = i + 1;
        }
        None
    }

    /// Index of the last child of kind `k`.
    pub fn last_child(&self, k: ElementType) -> (r: Option<usize>)
        ensures
            r matches Some(i) ==> i < self.children.len() && last_of_kind(self.children@, k)
                == Some(i as int),
            r is None ==> last_of_kind(self.children@, k) is None,
    {
        let mut i: usize = self.children.len();
        assert(self.children@.take(i as int) =~= self.children@);
        while i > 0
            invariant
                i <= self.children.len(),
                last_of_kind(self.children@, k) == last_of_kind(self.children@.take(i as int), k),
            decreases i,
        {
            assert(self.children@.take(i as int).drop_last() =~= self.children@.take(i - 1));
            if self.children[i - 1].xsd_type() == k {
                return Some(i - 1);
            }
            i = i - 1;
        }
        None
    }

    /// The element's documentation: the texts of all `documentation` elements
    /// of all its `annotation` children, joined by line feeds.
    pub fn get_documentation(&self) -> (r: Option<String>)
        ensures
            opt_text(r) == self.documentation(),
    {
        let mut acc = String::new();
        let mut i: usize = 0;
        while i < self.children.len()
            invariant
                i <= self.children.len(),
                acc@ == annotation_text(self.children@.take(i as int)),
            decreases self.children.len() - i,
        {
            assert(self.children@.take(i + 1).drop_last() =~= self.children@.take(i as int));
            let a = &self.children[i];
            if a.xsd_type() == ElementType::Annotation {
                let mut j: usize = 0;
                let ghost start = acc@;
                assert(a.children@.take(0) =~= Seq::<XsdNode>::empty());
                while j < a.children.len()
                    invariant
                        j <= a.children.len(),
                        acc@ == doc_fold(start, a.children@.take(j as int)),
                    decreases a.children.len() - j,
                {
                    assert(a.children@.take(j + 1).drop_last() =~= a.children@.take(j as int));
                    let d = &a.children[j];
                    if d.xsd_type() == ElementType::Documentation {
                        if let Some(t) = &d.text {
                            if !t.as_str().is_empty() {
                                if !acc.as_str().is_empty() {
                                    push_char(&mut acc, '\n');
                                }
                                acc.append(t.as_str());
                            }
                        }
                    }
                    j = j + 1;
                }
                assert(a.children@.take(a.children.len() as int) =~= a.children@);
            }
            i = i + 1;
        }
        assert(self.children@.take(self.children.len() as int) =~= self.children@);
        if acc.as_str().is_empty() {
            None
        } else {
            Some(acc)
        }
    }
}

} // verus!
