use xsd_parser::{
    get_field_comment, get_field_name, get_structure_comment, get_type_name, split_comment_line,
    yaserde_derive, yaserde_derive_for,
};

#[test]
fn documentation_wrap() {
    let text: String = (0..130).map(|i| (b'a' + (i % 26) as u8) as char).collect();
    let out = get_structure_comment(Some(&text));
    let lines: Vec<&str> = out.split_terminator('\n').collect();
    assert_eq!(lines.len(), 3);
    assert_eq!(lines[0], format!("// {}", &text[0..60]));
    assert_eq!(lines[1], format!("// {}", &text[60..120]));
    assert_eq!(lines[2], format!("// {}", &text[120..130]));
    assert!(out.ends_with('\n'));
    assert_eq!(out.matches('\n').count(), 3);
}

#[test]
fn structure_comment_trims_and_drops_short_lines() {
    assert_eq!(
        get_structure_comment(Some("  First line.  \n ok\n\n\tSecond line\r\n")),
        "// First line.\n// Second line\n"
    );
    assert_eq!(get_structure_comment(Some("abc")), "// abc\n");
    assert_eq!(get_structure_comment(None), "");
    assert_eq!(get_structure_comment(Some("")), "");
}

#[test]
fn structure_comment_keeps_wide_characters_whole() {
    let text = "é".repeat(31);
    let out = get_structure_comment(Some(&text));
    assert_eq!(out, format!("// {}\n// {}\n", "é".repeat(30), "é"));
}

#[test]
fn field_comment_one_line_each() {
    assert_eq!(
        get_field_comment(Some(" Some field. \nab\nx\n")),
        "// Some field.  // ab  "
    );
    assert_eq!(get_field_comment(None), "");
}

#[test]
fn split_comment_line_exact() {
    assert_eq!(split_comment_line("hello"), "// hello\n");
    assert_eq!(split_comment_line(""), "");
    let sixty = "x".repeat(60);
    assert_eq!(split_comment_line(&sixty), format!("// {}\n", sixty));
    let sixty_one = "x".repeat(61);
    assert_eq!(split_comment_line(&sixty_one), format!("// {}\n// x\n", sixty));
}

#[test]
fn emitting_twice_is_identical() {
    let text = "A long documentation text that is wrapped over several lines of comment output, more than once.";
    assert_eq!(get_structure_comment(Some(text)), get_structure_comment(Some(text)));
    assert_eq!(get_field_comment(Some(text)), get_field_comment(Some(text)));
}

#[test]
fn documentation_round_trip() {
    let text = "  Alpha beta gamma delta epsilon zeta eta theta iota kappa lambda mu nu xi.\n--\nOmicron pi.  ";
    let out = get_structure_comment(Some(text));
    let stripped: String = out
        .split_terminator('\n')
        .map(|l| l.strip_prefix("// ").unwrap())
        .collect();
    assert_eq!(
        stripped,
        "Alpha beta gamma delta epsilon zeta eta theta iota kappa lambda mu nu xi.Omicron pi."
    );
}

#[test]
fn type_and_field_names() {
    assert_eq!(get_type_name("content_type"), "ContentType");
    assert_eq!(get_type_name("expectedContentTypes"), "ExpectedContentTypes");
    assert_eq!(get_field_name("ContentType"), "content_type");
    assert_eq!(get_field_name("expectedContentTypes"), "expected_content_types");
    assert_eq!(get_type_name(""), "");
    assert_eq!(get_type_name("xlink:href"), "Href");
    assert_eq!(get_type_name("xs:simple_name"), "SimpleName");
    assert_eq!(get_field_name("type"), "type_");
    assert_eq!(get_field_name("Match"), "match_");
    assert_eq!(get_field_name("types"), "types");
}

#[test]
fn derive_block() {
    assert_eq!(
        yaserde_derive(),
        "#[derive(Default, PartialEq, Debug, YaSerialize, YaDeserialize)]\n#[yaserde(\nprefix = \"unknown\",\nnamespace = \"unknown: unknown\"\n)\n"
    );
}

#[test]
fn wrap_never_splits_a_character() {
    let text = format!("a{}", "é".repeat(30));
    assert_eq!(
        get_structure_comment(Some(&text)),
        format!("// a{}\n// é\n", "é".repeat(29))
    );
    assert_eq!(split_comment_line(&text), format!("// a{}\n// é\n", "é".repeat(29)));
}

#[test]
fn derive_block_with_namespace() {
    assert_eq!(
        yaserde_derive_for(Some("http://example.com/ns")),
        "#[derive(Default, PartialEq, Debug, YaSerialize, YaDeserialize)]\n#[yaserde(\nprefix = \"unknown\",\nnamespace = \"unknown: http://example.com/ns\"\n)\n"
    );
    assert_eq!(yaserde_derive_for(None), yaserde_derive());
}
