use std::collections::BTreeSet;

use ratect_core::engine::{
    expand_prerequisite_wildcards, human_readable_list, suggest_task_names, wildcard_matches, Config, Container,
    EngineError, Task, TaskEngine, TaskEngineSettings, TaskRun,
};
use ratect_core::text_map::TextMap;

fn container_of(image: &str, build_directory: Option<&str>) -> Container {
    Container { image: Some(image.to_string()), build_directory: build_directory.map(str::to_string) }
}

fn task(container: &str, command: &str) -> Task {
    Task {
        run: Some(TaskRun { container: container.to_string(), command: Some(command.to_string()) }),
        prerequisites: None,
        dependencies: None,
        description: None,
        group: None,
    }
}

fn minimal_task() -> Task {
    Task { run: None, prerequisites: None, dependencies: None, description: None, group: None }
}

fn config(containers: TextMap<Container>, tasks: TextMap<Task>) -> Config {
    Config { project_name: "demo".to_string(), containers, tasks, config_variables: None, forbid_telemetry: None }
}

fn overrides(pairs: &[(&str, &str)]) -> TextMap<String> {
    let mut map = TextMap::new();
    for (k, v) in pairs {
        map.insert(k.to_string(), v.to_string());
    }
    map
}

#[test]
fn wildcard_expansion_treats_regex_metacharacters_in_task_names_literally() {
    let mut tasks = TextMap::new();
    tasks.insert("build.env".to_string(), minimal_task());
    tasks.insert("buildXenv".to_string(), minimal_task());

    let expanded = expand_prerequisite_wildcards(&tasks, &["build.*".to_string()]).unwrap();

    assert_eq!(
        expanded,
        vec!["build.env".to_string()],
        "the literal '.' in the pattern should only match a literal '.', not any character \
             (so 'buildXenv' must not match)"
    );
}

#[test]
fn wildcards_expand_alphabetically_and_literals_stay_as_written() {
    let mut tasks = TextMap::new();
    for name in ["lint:foo", "lint:bar", "build", "lint:foo:unit", "lint:bar:unit", "lint:foo:integration"] {
        tasks.insert(name.to_string(), minimal_task());
    }
    let expanded = expand_prerequisite_wildcards(
        &tasks,
        &["lint:foo".to_string(), "lint:*:unit".to_string(), "nonexistent:*".to_string(), "missing".to_string()],
    )
    .unwrap();
    assert_eq!(expanded, vec!["lint:foo", "lint:bar:unit", "lint:foo:unit", "missing"]);

    let expanded = expand_prerequisite_wildcards(&tasks, &["lint:foo".to_string(), "lint:*".to_string()]).unwrap();
    assert_eq!(expanded, vec!["lint:foo", "lint:bar", "lint:bar:unit", "lint:foo:integration", "lint:foo:unit"]);
}

#[test]
fn a_star_matches_any_run_of_characters_including_none() {
    assert!(wildcard_matches("lint:*", "lint:"));
    assert!(wildcard_matches("*", ""));
    assert!(wildcard_matches("a*b*c", "abbbc"));
    assert!(!wildcard_matches("a*b*c", "abbb"));
    assert!(!wildcard_matches("build.env", "buildXenv"));
}

#[test]
fn suggests_multiple_close_matches_as_a_human_readable_list() {
    let mut tasks = TextMap::new();
    for name in ["test", "text", "tent", "unrelated"] {
        tasks.insert(name.to_string(), minimal_task());
    }

    let suggestions = suggest_task_names(&tasks, "test");

    // "test" itself is an exact match (distance 0); "text"/"tent" are
    // both distance 1; "unrelated" is far outside the distance-3 cutoff.
    assert_eq!(
        suggestions,
        vec!["test".to_string(), "tent".to_string(), "text".to_string()],
        "ties should break alphabetically, and nothing beyond the distance-3 cutoff should appear"
    );
}

#[test]
fn a_slight_misspelling_is_suggested_and_a_wild_one_is_not() {
    let mut tasks = TextMap::new();
    for name in ["test-task", "shared-prereq", "prereq-task"] {
        tasks.insert(name.to_string(), minimal_task());
    }
    assert_eq!(suggest_task_names(&tasks, "tst-task"), vec!["test-task".to_string()]);
    assert!(suggest_task_names(&tasks, "completely-unrelated-name").is_empty());
    // Three edits away is still suggested; four is not.
    assert_eq!(suggest_task_names(&tasks, "tXXX-task"), vec!["test-task".to_string()]);
    assert!(suggest_task_names(&tasks, "XXXX-task").is_empty());
}

#[test]
fn human_readable_list_formats_one_two_and_three_items() {
    assert_eq!(human_readable_list(&["a".to_string()], "or"), "a");
    assert_eq!(human_readable_list(&["a".to_string(), "b".to_string()], "or"), "a or b");
    assert_eq!(human_readable_list(&["a".to_string(), "b".to_string(), "c".to_string()], "or"), "a, b or c");
}

#[test]
fn human_readable_list_of_nothing_is_empty() {
    assert_eq!(human_readable_list(&[], "and"), "");
    assert_eq!(
        human_readable_list(&["a".to_string(), "b".to_string(), "c".to_string(), "d".to_string()], "and"),
        "a, b, c and d"
    );
}

fn one_container_config() -> Config {
    let mut containers = TextMap::new();
    containers.insert("build-env".to_string(), container_of("alpine:3.18", None));
    let mut tasks = TextMap::new();
    tasks.insert("test".to_string(), task("build-env", "echo hi"));
    config(containers, tasks)
}

#[test]
fn with_image_overrides_rejects_an_unknown_container_name() {
    let err = match TaskEngine::new(one_container_config())
        .with_image_overrides(overrides(&[("no-such-container", "ubuntu:22.04")]))
    {
        Ok(_) => panic!("expected with_image_overrides to reject an unknown container name"),
        Err(err) => err,
    };

    assert_eq!(
        err.message(),
        "Cannot override image for container 'no-such-container' because there is no \
             container named 'no-such-container' defined."
    );
}

#[test]
fn with_image_overrides_keeps_overrides_naming_real_containers() {
    let engine = TaskEngine::new(one_container_config())
        .with_image_overrides(overrides(&[("build-env", "ubuntu:22.04")]))
        .unwrap();
    assert_eq!(engine.image_overrides.get("build-env").map(String::as_str), Some("ubuntu:22.04"));
}

#[test]
fn with_settings_applies_every_setting() {
    let mut image_tags = TextMap::new();
    image_tags.insert("build-env".to_string(), vec!["extra".to_string()]);
    let settings = TaskEngineSettings {
        existing_network: Some("existing".to_string()),
        publish_ports: false,
        propagate_proxy_environment_variables: false,
        run_prerequisites: false,
        image_overrides: overrides(&[("build-env", "ubuntu:22.04")]),
        image_tags,
        cleanup_after_success: false,
        cleanup_after_failure: false,
        max_parallelism: Some(3),
        cache: Some((ratect_core::engine::CacheType::Directory, "/projects/demo".to_string())),
        ratect_version: Some("1.2.3".to_string()),
        interrupt: Some(ratect_core::interrupt::Interrupt::new()),
    };
    let engine = TaskEngine::new(one_container_config())
        .with_settings(settings)
        .expect("settings naming a real container should apply");

    assert!(engine.interrupt.is_some());
    assert_eq!(engine.existing_network.as_deref(), Some("existing"));
    assert!(!engine.publish_ports);
    assert!(!engine.propagate_proxy_environment_variables);
    assert!(engine.skip_prerequisites);
    assert_eq!(engine.image_overrides.get("build-env").map(String::as_str), Some("ubuntu:22.04"));
    assert!(engine.image_tags.get("build-env").unwrap().contains(&"extra".to_string()));
    assert!(!engine.cleanup_after_success);
    assert!(!engine.cleanup_after_failure);
    assert_eq!(engine.max_parallelism, Some(3));
    assert_eq!(engine.ratect_version.as_deref(), Some("1.2.3"));
    let cache = engine.cache_options.expect("cache options should be set");
    assert_eq!(cache.cache_type, ratect_core::engine::CacheType::Directory);
    assert_eq!(cache.project_directory, "/projects/demo");
}

#[test]
fn default_settings_leave_an_engine_in_its_no_flags_state() {
    let engine = TaskEngine::new(config(TextMap::new(), TextMap::new()))
        .with_settings(TaskEngineSettings::default())
        .expect("the default settings never fail to apply");

    assert!(engine.existing_network.is_none());
    assert!(engine.publish_ports);
    assert!(engine.propagate_proxy_environment_variables);
    assert!(!engine.skip_prerequisites);
    assert!(engine.image_overrides.is_empty());
    assert!(engine.image_tags.is_empty());
    assert!(engine.cleanup_after_success);
    assert!(engine.cleanup_after_failure);
    assert!(engine.max_parallelism.is_none());
    assert!(engine.cache_options.is_none());
    assert!(engine.ratect_version.is_none());
}

#[test]
fn with_settings_still_rejects_an_unknown_image_override() {
    let settings = TaskEngineSettings {
        image_overrides: overrides(&[("no-such-container", "ubuntu:22.04")]),
        ..TaskEngineSettings::default()
    };
    let error = match TaskEngine::new(config(TextMap::new(), TextMap::new())).with_settings(settings) {
        Ok(_) => panic!("an override naming an unknown container should be rejected"),
        Err(error) => error,
    };
    assert!(matches!(&error, EngineError::UnknownImageOverride { container } if container == "no-such-container"));
    assert_eq!(
        error.message(),
        "Cannot override image for container 'no-such-container' because there is no \
             container named 'no-such-container' defined."
    );
}

/// A `/proc/net/tcp` table with one socket listening on `address:port`.
fn tcp_table(address: &str, port: u16) -> String {
    format!(
        "  sl  local_address rem_address   st tx_queue rx_queue tr tm->when retrnsmt   uid  timeout inode\n\
            0: {address}:{port:04X} 00000000:0000 0A 00000000:00000000 00:00000000 00000000  1000        0 34567 1 0000000000000000 100 0 0 10 0\n"
    )
}

fn proxy_warning_config() -> Config {
    let mut containers = TextMap::new();
    containers.insert("app".to_string(), container_of("alpine:3.18", None));
    let mut tasks = TextMap::new();
    tasks.insert("run".to_string(), task("app", "echo hi"));
    config(containers, tasks)
}

fn env_with(name: &str, value: &str) -> TextMap<String> {
    let mut env = TextMap::new();
    env.insert(name.to_string(), value.to_string());
    env
}

#[test]
fn a_rewritten_proxy_url_on_a_loopback_bound_port_is_reported() {
    let engine = TaskEngine::new(proxy_warning_config())
        .with_host_env(env_with("http_proxy", "http://localhost:3333"))
        .with_proc_net_tcp(vec![tcp_table("0100007F", 3333)]);

    assert_eq!(engine.unreachable_proxy_ports(), BTreeSet::from([3333]));
}

#[test]
fn a_proxy_reachable_beyond_loopback_is_not_reported() {
    let engine = TaskEngine::new(proxy_warning_config())
        .with_host_env(env_with("http_proxy", "http://localhost:3333"))
        .with_proc_net_tcp(vec![tcp_table("00000000", 3333)]);

    assert!(engine.unreachable_proxy_ports().is_empty());
}

#[test]
fn a_proxy_url_that_was_not_rewritten_is_never_reported() {
    let engine = TaskEngine::new(proxy_warning_config())
        .with_host_env(env_with("http_proxy", "http://proxy.example.com:3333"))
        .with_proc_net_tcp(vec![tcp_table("0100007F", 3333)]);

    assert!(engine.unreachable_proxy_ports().is_empty());
}

#[test]
fn no_proxy_vars_silences_the_unreachable_proxy_warning() {
    let engine = TaskEngine::new(proxy_warning_config())
        .with_host_env(env_with("http_proxy", "http://localhost:3333"))
        .with_proc_net_tcp(vec![tcp_table("0100007F", 3333)])
        .without_proxy_environment_variables();

    assert!(engine.unreachable_proxy_ports().is_empty());
}

#[test]
fn a_host_with_no_proc_net_tcp_reports_nothing() {
    let engine = TaskEngine::new(proxy_warning_config())
        .with_host_env(env_with("http_proxy", "http://localhost:3333"))
        .with_proc_net_tcp(Vec::new());

    assert!(engine.unreachable_proxy_ports().is_empty());
}
