use ratect_core::schema::{config_file_schema, drop_string_shorthand, native_config_file_schema, Json};
use ratect_core::schema_forms::{
    build_secret_schema, byte_size_schema, device_mount_schema, duration_schema, hand_written_definitions,
    include_schema, port_mapping_schema, port_range_schema, string_or_object, volume_mount_schema,
};

fn get<'a>(value: &'a Json, key: &str) -> &'a Json {
    match value {
        Json::Object(entries) => match entries.iter().find(|(k, _)| k == key) {
            Some((_, v)) => v,
            None => panic!("no field {key}"),
        },
        _ => panic!("not an object, looking for {key}"),
    }
}

fn has(value: &Json, key: &str) -> bool {
    match value {
        Json::Object(entries) => entries.iter().any(|(k, _)| k == key),
        _ => false,
    }
}

fn text_in(value: &Json) -> &str {
    match value {
        Json::Text(t) => t.as_str(),
        _ => panic!("not a text"),
    }
}

fn number_in(value: &Json) -> &str {
    match value {
        Json::Number(n) => n.as_str(),
        _ => panic!("not a number"),
    }
}

fn items(value: &Json) -> &Vec<Json> {
    match value {
        Json::Array(items) => items,
        _ => panic!("not an array"),
    }
}

fn keys(value: &Json) -> Vec<&str> {
    match value {
        Json::Object(entries) => entries.iter().map(|(k, _)| k.as_str()).collect(),
        _ => panic!("not an object"),
    }
}

fn texts_in(value: &Json) -> Vec<&str> {
    items(value).iter().map(text_in).collect()
}

fn generated_with_hand_written_definitions() -> Json {
    let mut definitions = hand_written_definitions();
    definitions.push((
        "Container".to_string(),
        Json::Object(vec![
            (
                "properties".to_string(),
                Json::Object(vec![(
                    "image".to_string(),
                    Json::Object(vec![("type".to_string(), Json::Text("string".to_string()))]),
                )]),
            ),
            ("additionalProperties".to_string(), Json::Bool(false)),
        ]),
    ));
    Json::Object(vec![
        ("definitions".to_string(), Json::Object(definitions)),
        ("additionalProperties".to_string(), Json::Bool(false)),
    ])
}

#[test]
fn both_forms_of_every_string_or_object_field_are_described() {
    let schema = config_file_schema(generated_with_hand_written_definitions());
    for (definition, expected_forms) in [
        ("PortMapping", 2),
        ("DeviceMount", 2),
        // local-string, local-object, cache, tmpfs.
        ("VolumeMount", 4),
        ("BuildSecret", 2),
        // path-string, file-object, git-object.
        ("Include", 3),
        // a bare port number, or a "from-to" string.
        ("PortRange", 2),
    ] {
        let forms = items(get(get(get(&schema, "definitions"), definition), "oneOf"));
        assert_eq!(forms.len(), expected_forms, "{definition} should describe {expected_forms} accepted forms");
    }
}

#[test]
fn the_hand_written_definitions_are_filed_under_their_names() {
    let definitions = hand_written_definitions();
    let names: Vec<&str> = definitions.iter().map(|(name, _)| name.as_str()).collect();
    assert_eq!(names, vec!["PortRange", "PortMapping", "DeviceMount", "VolumeMount", "Include", "BuildSecret"]);
}

#[test]
fn the_real_definitions_become_object_only_in_the_native_schema() {
    let native = native_config_file_schema(generated_with_hand_written_definitions());
    let definitions = get(&native, "definitions");
    for (definition, object_forms) in [("VolumeMount", 3), ("Include", 2)] {
        let forms = items(get(get(definitions, definition), "oneOf"));
        assert_eq!(forms.len(), object_forms, "{definition} keeps only its object forms");
        for form in forms {
            assert_eq!(text_in(get(form, "type")), "object", "every native {definition} form is an object");
        }
    }
    for definition in ["PortMapping", "DeviceMount"] {
        assert_eq!(text_in(get(get(definitions, definition), "type")), "object");
        assert!(!has(get(definitions, definition), "oneOf"), "{definition} should no longer be a oneOf");
    }
    // A port range's string form is a range, which the native format keeps.
    assert_eq!(items(get(get(definitions, "PortRange"), "oneOf")).len(), 2);
    // The Git include gains the native properties.
    let git = &items(get(get(definitions, "Include"), "oneOf"))[1];
    assert!(has(get(git, "properties"), "allow_nested_git_includes"));
    assert!(text_in(get(get(get(git, "properties"), "path"), "description")).contains("ratect-bundle.toml"));
}

#[test]
fn dropping_the_shorthand_keeps_the_volume_forms_in_order() {
    let dropped = drop_string_shorthand(volume_mount_schema());
    let forms = items(get(&dropped, "oneOf"));
    let tags: Vec<&str> = forms.iter().map(|f| text_in(get(get(get(f, "properties"), "type"), "const"))).collect();
    assert_eq!(tags, vec!["local", "cache", "tmpfs"]);
}

#[test]
fn a_duration_is_a_patterned_string() {
    let schema = duration_schema();
    assert_eq!(keys(&schema), vec!["type", "pattern", "description", "examples"]);
    assert_eq!(text_in(get(&schema, "type")), "string");
    assert_eq!(text_in(get(&schema, "pattern")), r"^\+?(0|([0-9]*\.?[0-9]+(ns|us|µs|μs|ms|s|m|h))+)$");
    assert!(text_in(get(&schema, "description")).starts_with("A duration, in Batect's Go-style format"));
    assert_eq!(texts_in(get(&schema, "examples")), vec!["2s", "1m30s", "500ms", "0"]);
}

#[test]
fn a_size_is_a_suffixed_string_or_a_number_of_bytes() {
    let schema = byte_size_schema();
    let forms = items(get(&schema, "oneOf"));
    assert_eq!(forms.len(), 2);
    assert_eq!(text_in(get(&forms[0], "pattern")), "^[0-9]+[bkmgBKMG]?$");
    assert_eq!(texts_in(get(&forms[0], "examples")), vec!["128m", "1g", "512k"]);
    assert_eq!(text_in(get(&forms[1], "type")), "integer");
    assert_eq!(number_in(get(&forms[1], "minimum")), "0");
    assert_eq!(text_in(get(&forms[1], "description")), "A size in bytes.");
}

#[test]
fn a_port_range_is_a_port_number_or_a_range_string() {
    let schema = port_range_schema();
    let forms = items(get(&schema, "oneOf"));
    assert_eq!(number_in(get(&forms[0], "minimum")), "1");
    assert_eq!(number_in(get(&forms[0], "maximum")), "65535");
    assert_eq!(text_in(get(&forms[0], "description")), "A single port.");
    assert_eq!(text_in(get(&forms[1], "pattern")), "^[0-9]+(-[0-9]+)?$");
}

#[test]
fn a_port_mapping_object_refers_to_the_port_range_definition() {
    let schema = port_mapping_schema();
    let forms = items(get(&schema, "oneOf"));
    assert_eq!(text_in(get(&forms[0], "pattern")), "^[0-9]+(-[0-9]+)?:[0-9]+(-[0-9]+)?(/[a-zA-Z]+)?$");
    let properties = get(&forms[1], "properties");
    assert_eq!(keys(properties), vec!["local", "container", "protocol"]);
    assert_eq!(text_in(get(get(properties, "local"), "$ref")), "#/definitions/PortRange");
    assert_eq!(text_in(get(get(properties, "container"), "$ref")), "#/definitions/PortRange");
    assert_eq!(texts_in(get(&forms[1], "required")), vec!["local", "container"]);
    assert!(matches!(get(&forms[1], "additionalProperties"), Json::Bool(false)));
}

#[test]
fn a_device_mount_object_needs_local_and_container() {
    let schema = device_mount_schema();
    let forms = items(get(&schema, "oneOf"));
    assert_eq!(texts_in(get(&forms[0], "examples")), vec!["/dev/kvm:/dev/kvm", "/dev/sda:/dev/xvda:rwm"]);
    assert_eq!(keys(get(&forms[1], "properties")), vec!["local", "container", "options"]);
    assert_eq!(texts_in(get(&forms[1], "required")), vec!["local", "container"]);
}

#[test]
fn volume_mount_forms_require_what_each_kind_needs() {
    let schema = volume_mount_schema();
    let forms = items(get(&schema, "oneOf"));
    assert_eq!(forms.len(), 4);
    assert!(text_in(get(&forms[0], "description")).contains("Only local mounts have this compact form"));
    assert_eq!(texts_in(get(&forms[1], "required")), vec!["local", "container"]);
    assert_eq!(texts_in(get(&forms[2], "required")), vec!["type", "name", "container"]);
    assert_eq!(texts_in(get(&forms[3], "required")), vec!["type", "container"]);
    assert_eq!(
        text_in(get(get(get(&forms[3], "properties"), "options"), "description")),
        "tmpfs options, forwarded to Docker verbatim (for example \"size=64m,mode=1770\")."
    );
}

#[test]
fn a_git_include_needs_its_repo_and_ref() {
    let schema = include_schema();
    let forms = items(get(&schema, "oneOf"));
    assert_eq!(forms.len(), 3);
    assert_eq!(texts_in(get(&forms[0], "examples")), vec!["tasks/build.yml"]);
    assert_eq!(texts_in(get(&forms[1], "required")), vec!["path"]);
    assert_eq!(texts_in(get(&forms[2], "required")), vec!["type", "repo", "ref"]);
    let host_paths = get(get(&forms[2], "properties"), "allow_host_paths");
    assert_eq!(text_in(get(host_paths, "type")), "boolean");
    assert!(text_in(get(host_paths, "description")).ends_with("Defaults to false."));
}

#[test]
fn a_build_secret_names_one_source_and_says_so() {
    let schema = build_secret_schema();
    assert_eq!(keys(&schema), vec!["oneOf", "description"]);
    let forms = items(get(&schema, "oneOf"));
    assert_eq!(texts_in(get(&forms[0], "required")), vec!["environment"]);
    assert_eq!(texts_in(get(&forms[1], "required")), vec!["path"]);
    assert!(text_in(get(&schema, "description")).contains("Exactly one of 'environment' or 'path' is required."));
}

#[test]
fn string_or_object_offers_both_schemas_in_order() {
    let schema = string_or_object(Json::Text("s".to_string()), Json::Text("o".to_string()));
    assert_eq!(keys(&schema), vec!["oneOf"]);
    assert_eq!(texts_in(get(&schema, "oneOf")), vec!["s", "o"]);
}

#[test]
fn unknown_fields_are_rejected_by_the_schema_too() {
    let schema = config_file_schema(generated_with_hand_written_definitions());
    assert!(matches!(get(&schema, "additionalProperties"), Json::Bool(false)));
    assert!(matches!(get(get(get(&schema, "definitions"), "Container"), "additionalProperties"), Json::Bool(false)));
}
