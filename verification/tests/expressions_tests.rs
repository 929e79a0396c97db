use ratect_core::expressions::{interpolate, ExpressionError};
use ratect_core::text_map::TextMap;

fn host_env(vars: &[(&str, &str)]) -> TextMap<String> {
    let mut env = TextMap::new();
    for (k, v) in vars {
        env.insert(k.to_string(), v.to_string());
    }
    env
}

fn no_config() -> TextMap<Option<String>> {
    TextMap::new()
}

#[test]
fn passes_through_literal_text_unchanged() {
    let result = interpolate("hello world", &host_env(&[]), &no_config()).unwrap();
    assert_eq!(result, "hello world");
}

#[test]
fn expands_bare_host_var() {
    let result = interpolate("$FOO", &host_env(&[("FOO", "bar")]), &no_config()).unwrap();
    assert_eq!(result, "bar");
}

#[test]
fn expands_braced_host_var() {
    let result = interpolate("${FOO}", &host_env(&[("FOO", "bar")]), &no_config()).unwrap();
    assert_eq!(result, "bar");
}

#[test]
fn expands_host_var_within_surrounding_literal_text() {
    let result = interpolate("prefix-$FOO-suffix", &host_env(&[("FOO", "bar")]), &no_config()).unwrap();
    assert_eq!(result, "prefix-bar-suffix");
}

#[test]
fn uses_default_when_host_var_unset() {
    let result = interpolate("${FOO:-fallback}", &host_env(&[]), &no_config()).unwrap();
    assert_eq!(result, "fallback");
}

#[test]
fn prefers_set_host_var_over_default() {
    let result = interpolate("${FOO:-fallback}", &host_env(&[("FOO", "actual")]), &no_config()).unwrap();
    assert_eq!(result, "actual");
}

#[test]
fn errors_when_host_var_unset_and_no_default() {
    let err = interpolate("$FOO", &host_env(&[]), &no_config()).unwrap_err();
    assert!(err.message().contains("FOO"));
    assert!(err.message().contains("is not set"));
}

#[test]
fn expands_bare_config_var() {
    let mut config_vars = TextMap::new();
    config_vars.insert("name".to_string(), Some("value".to_string()));
    let result = interpolate("<name", &host_env(&[]), &config_vars).unwrap();
    assert_eq!(result, "value");
}

#[test]
fn expands_braced_config_var() {
    let mut config_vars = TextMap::new();
    config_vars.insert("name".to_string(), Some("value".to_string()));
    let result = interpolate("<{name}", &host_env(&[]), &config_vars).unwrap();
    assert_eq!(result, "value");
}

#[test]
fn errors_on_undeclared_config_var() {
    let err = interpolate("<missing", &host_env(&[]), &no_config()).unwrap_err();
    assert!(err.message().contains("missing"));
    assert!(err.message().contains("not declared"));
}

#[test]
fn errors_on_declared_config_var_with_no_value() {
    let mut config_vars = TextMap::new();
    config_vars.insert("name".to_string(), None);
    let err = interpolate("<name", &host_env(&[]), &config_vars).unwrap_err();
    assert!(err.message().contains("no value"));
}

#[test]
fn leaves_dollar_sign_not_followed_by_identifier_as_literal() {
    let result = interpolate("$ $$ $5", &host_env(&[]), &no_config()).unwrap();
    assert_eq!(result, "$ $$ $5");
}

#[test]
fn leaves_unterminated_braced_expression_as_literal() {
    let result = interpolate("${FOO", &host_env(&[]), &no_config()).unwrap();
    assert_eq!(result, "${FOO");
}

#[test]
fn mixes_host_and_config_var_expressions_in_one_string() {
    let mut config_vars = TextMap::new();
    config_vars.insert("env_name".to_string(), Some("staging".to_string()));
    let result =
        interpolate("$SERVICE-<env_name>-${REGION:-eu}", &host_env(&[("SERVICE", "api")]), &config_vars).unwrap();
    // `<env_name` expands (consuming just the identifier), leaving the
    // trailing '>' from the input as literal text.
    assert_eq!(result, "api-staging>-eu");
}

#[test]
fn expands_bare_config_var_with_dotted_name() {
    let mut config_vars = TextMap::new();
    config_vars.insert("batect.project_directory".to_string(), Some("/abs/project".to_string()));
    let result = interpolate("<batect.project_directory", &host_env(&[]), &config_vars).unwrap();
    assert_eq!(result, "/abs/project");
}

#[test]
fn expands_braced_config_var_with_dotted_name() {
    let mut config_vars = TextMap::new();
    config_vars.insert("batect.project_directory".to_string(), Some("/abs/project".to_string()));
    let result = interpolate("<{batect.project_directory}/scripts", &host_env(&[]), &config_vars).unwrap();
    assert_eq!(result, "/abs/project/scripts");
}

#[test]
fn dot_is_not_a_valid_host_var_identifier_character() {
    let err = interpolate("$batect.project_directory", &host_env(&[]), &no_config()).unwrap_err();
    assert!(err.message().contains("batect"));
    assert!(!err.message().contains("batect.project_directory"));
}

#[test]
fn a_braced_config_var_with_a_default_separator_is_literal() {
    // The `:-` default applies to host variables only; a config variable's
    // name cannot hold it, so the whole expression stays literal text.
    let result = interpolate("<{name:-x}", &host_env(&[]), &no_config()).unwrap();
    assert_eq!(result, "<{name:-x}");
}

#[test]
fn an_empty_default_is_still_a_default() {
    let result = interpolate("a${FOO:-}b", &host_env(&[]), &no_config()).unwrap();
    assert_eq!(result, "ab");
}

#[test]
fn the_first_unresolvable_expression_is_the_one_reported() {
    let err = interpolate("$FIRST <second", &host_env(&[]), &no_config()).unwrap_err();
    match err {
        ExpressionError::HostVariableNotSet { name } => assert_eq!(name, "FIRST"),
        other => panic!("unexpected error: {}", other.message()),
    }
}
