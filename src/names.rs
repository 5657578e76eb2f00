//! Identifier conversion and the annotation block written above each type.
use vstd::prelude::*;
use vstd::string::StringExecFns;
use crate::comment::{chars_of, push_char, push_range};
use crate::node::same_text;

verus! {

/// What inflector's `to_pascal_case` makes of a text.
pub uninterp spec fn pascal_of(s: Seq<char>) -> Seq<char>;

/// What inflector's `to_snake_case` makes of a text.
pub uninterp spec fn snake_of(s: Seq<char>) -> Seq<char>;

/// Relies on `inflector::cases::pascalcase::to_pascal_case`: its result depends on
/// the text alone, and an empty text stays empty.
#[verifier::external_body]
pub(crate) fn pascal_case(s: &str) -> (r: String)
    ensures
        r@ == pascal_of(s@),
        s@.len() == 0 ==> r@.len() == 0,
{
    inflector::cases::pascalcase::to_pascal_case(s)
}

/// Relies on `inflector::cases::snakecase::to_snake_case`: its result depends on
/// the text alone, and an empty text stays empty.
#[verifier::external_body]
fn snake_case(s: &str) -> (r: String)
    ensures
        r@ == snake_of(s@),
        s@.len() == 0 ==> r@.len() == 0,
{
    inflector::cases::snakecase::to_snake_case(s)
}

/// What follows the last `:` of a qualified name; all of it where it has none.
pub open spec fn local_part(s: Seq<char>) -> Seq<char>
    decreases s.len(),
{
    if s.len() == 0 || s.last() == ':' {
        seq![]
    } else {
        local_part(s.drop_last()).push(s.last())
    }
}

/// The words that a generated field name may not be.
pub open spec fn is_reserved(s: Seq<char>) -> bool {
    s == "as"@
        || s == "break"@
        || s == "const"@
        || s == "continue"@
        || s == "crate"@
        || s == "else"@
        || s == "enum"@
        || s == "false"@
        || s == "fn"@
        || s == "for"@
        || s == "if"@
        || s == "impl"@
        || s == "in"@
        || s == "let"@
        || s == "loop"@
        || s == "match"@
        || s == "mod"@
        || s == "move"@
        || s == "mut"@
        || s == "pub"@
        || s == "ref"@
        || s == "return"@
        || s == "self"@
        || s == "struct"@
        || s == "super"@
        || s == "trait"@
        || s == "true"@
        || s == "type"@
        || s == "use"@
        || s == "where"@
        || s == "while"@
        || s == "async"@
        || s == "await"@
        || s == "dyn"@
}

/// `s`, followed by `_` where it is a reserved word.
pub open spec fn reserved_guarded(s: Seq<char>) -> Seq<char> {
    if is_reserved(s) {
        s.push('_')
    } else {
        s
    }
}

/// The local part of `name`, without any namespace prefix.
pub fn local_name(name: &str) -> (r: String)
    ensures
        r@ == local_part(name@),
{
    let cs = chars_of(name);
    let n = cs.len();
    let mut i: usize = n;
    assert(cs@.take(n as int) =~= cs@);
    assert(cs@.subrange(n as int, n as int) =~= Seq::<char>::empty());
    while i > 0 && cs[i - 1] != ':'
        invariant
            i <= n == cs.len(),
            cs@ == name@,
            local_part(name@) == local_part(cs@.take(i as int)) + cs@.subrange(i as int, n as int),
        decreases i,
    {
        assert(cs@.take(i as int).drop_last() =~= cs@.take(i - 1));
        assert(cs@.take(i - 1).push(cs@[i - 1]) + cs@.subrange(i as int, n as int) =~= cs@.take(
            i - 1,
        ) + cs@.subrange(i - 1, n as int));
        i = i - 1;
    }
    assert(local_part(cs@.take(i as int)) =~= Seq::<char>::empty());
    let mut out = String::new();
    push_range(&mut out, &cs, i, n);
    assert(out@ =~= local_part(name@));
    out
}

/// `s`, followed by `_` where it is a reserved word.
pub fn guard_reserved(s: String) -> (r: String)
    ensures
        r@ == reserved_guarded(s@),
{
    let t = s.as_str();
    let hit = same_text(t, "as")
        || same_text(t, "break")
        || same_text(t, "const")
        || same_text(t, "continue")
        || same_text(t, "crate")
        || same_text(t, "else")
        || same_text(t, "enum")
        || same_text(t, "false")
        || same_text(t, "fn")
        || same_text(t, "for")
        || same_text(t, "if")
        || same_text(t, "impl")
        || same_text(t, "in")
        || same_text(t, "let")
        || same_text(t, "loop")
        || same_text(t, "match")
        || same_text(t, "mod")
        || same_text(t, "move")
        || same_text(t, "mut")
        || same_text(t, "pub")
        || same_text(t, "ref")
        || same_text(t, "return")
        || same_text(t, "self")
        || same_text(t, "struct")
        || same_text(t, "super")
        || same_text(t, "trait")
        || same_text(t, "true")
        || same_text(t, "type")
        || same_text(t, "use")
        || same_text(t, "where")
        || same_text(t, "while")
        || same_text(t, "async")
        || same_text(t, "await")
        || same_text(t, "dyn");
    if hit {
        let mut r = s;
        push_char(&mut r, '_');
        r
    } else {
        s
    }
}

/// The name of the type generated for the schema name `name`: its local part,
/// without any namespace prefix, in PascalCase.
pub fn get_type_name(name: &str) -> (r: String)
    ensures
        r@ == pascal_of(local_part(name@)),
{
    let local = local_name(name);
    pascal_case(local.as_str())
}

/// The name of the field generated for the schema name `name`: snake_case, with
/// `_` after it where that is a reserved word.
pub fn get_field_name(name: &str) -> (r: String)
    ensures
        r@ == reserved_guarded(snake_of(name@)),
{
    guard_reserved(snake_case(name))
}

/// The annotation block written above each generated type: the derived traits,
/// and a namespace prefix and URI of `unknown` where the schema gave none.
pub open spec fn derive_block() -> Seq<char> {
    "#[derive(Default, PartialEq, Debug, YaSerialize, YaDeserialize)]\n#[yaserde(\nprefix = \"unknown\",\nnamespace = \"unknown: unknown\"\n)\n"@
}

/// The annotation block with the namespace URI `ns` in place of `unknown`.
pub open spec fn derive_block_for(ns: Seq<char>) -> Seq<char> {
    "#[derive(Default, PartialEq, Debug, YaSerialize, YaDeserialize)]\n#[yaserde(\nprefix = \"unknown\",\nnamespace = \"unknown: "@
        + ns + "\"\n)\n"@
}

/// The annotation block for a schema whose namespace URI is `namespace`, with
/// `unknown` where none was given.
pub fn yaserde_derive_for(namespace: Option<&str>) -> (r: String)
    ensures
        namespace matches Some(ns) ==> r@ == derive_block_for(ns@),
        namespace is None ==> r@ == derive_block(),
{
    match namespace {
        None => yaserde_derive(),
        Some(ns) => {
            let mut r = String::from_str(
                "#[derive(Default, PartialEq, Debug, YaSerialize, YaDeserialize)]\n#[yaserde(\nprefix = \"unknown\",\nnamespace = \"unknown: ",
            );
            r.append(ns);
            r.append("\"\n)\n");
            r
        },
    }
}

pub fn yaserde_derive() -> (r: String)
    ensures
        r@ == derive_block(),
{
    String::from_str(
        "#[derive(Default, PartialEq, Debug, YaSerialize, YaDeserialize)]\n#[yaserde(\nprefix = \"unknown\",\nnamespace = \"unknown: unknown\"\n)\n",
    )
}

} // verus!
