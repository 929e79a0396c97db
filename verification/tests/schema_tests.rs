use ratect_core::schema::{strip_intra_doc_links, summarize};

#[test]
fn a_description_keeps_its_first_paragraph_only_reflowed() {
    assert_eq!(summarize("The first\nparagraph, wrapped.\n\nThe contributor-facing why."), "The first paragraph, wrapped.");
}

#[test]
fn intra_doc_links_lose_their_brackets_but_real_links_survive() {
    assert_eq!(
        summarize("See [`Container::volumes`] and [expressions](#expressions)."),
        "See `Container::volumes` and expressions."
    );
    assert_eq!(
        summarize("See [moby#41563](https://github.com/moby/moby/pull/41563) for why."),
        "See [moby#41563](https://github.com/moby/moby/pull/41563) for why."
    );
}

#[test]
fn a_one_paragraph_description_is_only_reflowed_and_trimmed() {
    assert_eq!(summarize("  one\n   two  \nthree\n"), "one two three");
    assert_eq!(summarize(""), "");
}

#[test]
fn an_unclosed_bracket_is_left_alone() {
    assert_eq!(strip_intra_doc_links("a [b c"), "a [b c");
    assert_eq!(strip_intra_doc_links("a ] b"), "a ] b");
}

#[test]
fn a_link_with_an_unclosed_target_keeps_only_its_label() {
    assert_eq!(strip_intra_doc_links("[a](b"), "a(b");
}

#[test]
fn several_links_are_each_rewritten() {
    assert_eq!(strip_intra_doc_links("[a] [b](x) [c](http://y)"), "a b [c](http://y)");
}

use ratect_core::schema::{
    add_native_property, config_file_schema, drop_string_shorthand, make_native, native_config_file_schema,
    summarize_descriptions, Json, NativeProperty,
};

fn text(s: &str) -> Json {
    Json::Text(s.to_string())
}

fn object(entries: Vec<(&str, Json)>) -> Json {
    Json::Object(entries.into_iter().map(|(k, v)| (k.to_string(), v)).collect())
}

fn field<'a>(value: &'a Json, key: &str) -> Option<&'a Json> {
    match value {
        Json::Object(entries) => entries.iter().find(|(k, _)| k == key).map(|(_, v)| v),
        _ => None,
    }
}

fn text_of(value: Option<&Json>) -> Option<&str> {
    match value {
        Some(Json::Text(t)) => Some(t.as_str()),
        _ => None,
    }
}

fn string_form() -> Json {
    object(vec![("type", text("string"))])
}

/// An object form tagged `tag` through its `properties.type.const`.
fn tagged_form(tag: &str) -> Json {
    object(vec![
        ("type", text("object")),
        ("properties", object(vec![("type", object(vec![("const", text(tag))]))])),
    ])
}

fn forms(value: &Json) -> &Vec<Json> {
    match field(value, "oneOf") {
        Some(Json::Array(items)) => items,
        _ => panic!("no oneOf"),
    }
}

#[test]
fn every_description_in_a_schema_is_summarized() {
    let schema = object(vec![
        ("description", text("Top.\n\nWhy.")),
        ("items", Json::Array(vec![object(vec![("description", text("[`A`] b"))]), Json::Number("3".to_string())])),
        ("title", text("Keep\n\nme")),
    ]);
    let out = summarize_descriptions(schema);
    assert_eq!(text_of(field(&out, "description")), Some("Top."));
    assert_eq!(text_of(field(&out, "title")), Some("Keep\n\nme"));
    match field(&out, "items") {
        Some(Json::Array(items)) => {
            assert_eq!(text_of(field(&items[0], "description")), Some("`A` b"));
            assert!(matches!(&items[1], Json::Number(n) if n == "3"));
        }
        _ => panic!("items lost"),
    }
}

#[test]
fn the_string_shorthand_is_dropped_and_a_single_form_unwrapped() {
    let port = object(vec![("oneOf", Json::Array(vec![string_form(), tagged_form("x")]))]);
    let dropped = drop_string_shorthand(port);
    assert_eq!(text_of(field(&dropped, "type")), Some("object"));
    assert!(field(&dropped, "oneOf").is_none());

    let volume = object(vec![(
        "oneOf",
        Json::Array(vec![string_form(), tagged_form("local"), tagged_form("cache"), tagged_form("tmpfs")]),
    )]);
    let dropped = drop_string_shorthand(volume);
    assert_eq!(forms(&dropped).len(), 3);
}

#[test]
fn a_definition_without_forms_is_left_alone() {
    let plain = object(vec![("type", text("string"))]);
    let dropped = drop_string_shorthand(plain);
    assert_eq!(text_of(field(&dropped, "type")), Some("string"));
}

#[test]
fn a_native_property_goes_only_into_the_form_with_its_tag() {
    let volume = object(vec![("oneOf", Json::Array(vec![tagged_form("local"), tagged_form("cache")]))]);
    let added = add_native_property(volume, "cache", "scope", NativeProperty::CacheScope);
    let all = forms(&added);
    assert!(field(field(&all[0], "properties").unwrap(), "scope").is_none());
    let scope = field(field(&all[1], "properties").unwrap(), "scope").unwrap();
    assert!(text_of(field(scope, "description")).unwrap().starts_with("Whether this cache is private"));
}

#[test]
fn a_single_form_definition_is_its_own_form() {
    let git_entry = tagged_form("git");
    let added = add_native_property(git_entry, "git", "path", NativeProperty::GitPath);
    let path = field(field(&added, "properties").unwrap(), "path").unwrap();
    assert_eq!(text_of(field(path, "type")), Some("string"));
    assert!(text_of(field(path, "description")).unwrap().contains("Defaults to ratect-bundle.toml"));
}

fn base_schema() -> Json {
    object(vec![
        (
            "definitions",
            object(vec![
                ("Container", object(vec![("properties", object(vec![("image", text("compat"))]))])),
                ("PortMapping", object(vec![("oneOf", Json::Array(vec![string_form(), tagged_form("p")]))])),
                (
                    "VolumeMount",
                    object(vec![(
                        "oneOf",
                        Json::Array(vec![string_form(), tagged_form("local"), tagged_form("cache"), tagged_form("tmpfs")]),
                    )]),
                ),
                ("Include", object(vec![("oneOf", Json::Array(vec![string_form(), tagged_form("file"), tagged_form("git")]))])),
                ("PortRange", object(vec![("oneOf", Json::Array(vec![string_form(), tagged_form("r")]))])),
            ]),
        ),
        ("description", text("Generated.")),
    ])
}

#[test]
fn the_native_schema_adds_extends_and_drops_the_string_shorthands() {
    let native = make_native(base_schema());
    let definitions = field(&native, "definitions").unwrap();
    let container_properties = field(field(definitions, "Container").unwrap(), "properties").unwrap();
    assert_eq!(text_of(field(field(container_properties, "extends").unwrap(), "type")), Some("string"));
    assert!(matches!(field(field(container_properties, "image").unwrap(), "type"), Some(Json::Array(_))));

    assert_eq!(forms(field(definitions, "VolumeMount").unwrap()).len(), 3);
    assert_eq!(forms(field(definitions, "Include").unwrap()).len(), 2);
    assert!(field(field(definitions, "PortMapping").unwrap(), "oneOf").is_none());
    // A port range's string form is a range, which native still uses.
    assert_eq!(forms(field(definitions, "PortRange").unwrap()).len(), 2);

    let git = &forms(field(definitions, "Include").unwrap())[1];
    let git_properties = field(git, "properties").unwrap();
    assert!(field(git_properties, "path").is_some());
    assert!(field(git_properties, "allow_nested_git_includes").is_some());
}

#[test]
fn a_schema_without_definitions_is_not_made_native() {
    let native = make_native(object(vec![("type", text("object"))]));
    assert_eq!(text_of(field(&native, "type")), Some("object"));
}

#[test]
fn both_schemas_are_titled_and_described() {
    let compat = config_file_schema(base_schema());
    assert_eq!(text_of(field(&compat, "title")), Some("Ratect configuration"));
    assert!(text_of(field(&compat, "description")).unwrap().starts_with("A Ratect (batect-compatible)"));
    let pattern = field(&compat, "patternProperties").unwrap();
    assert!(field(pattern, "^\\.").is_some());

    let native = native_config_file_schema(base_schema());
    assert_eq!(text_of(field(&native, "title")), Some("Ratect native configuration"));
    assert!(field(&native, "patternProperties").is_none());
}
