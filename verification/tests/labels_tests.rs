use ratect_core::labels::{all, ContainerRole, RunLabels, CONTAINER, NAMESPACE, PROJECT, ROLE, RUN, TASK, VERSION};
use ratect_core::text_map::TextMap;

fn labels() -> RunLabels {
    RunLabels::new("demo", "build", "run-id", Some("0.21.1"))
}

fn value<'a>(labels: &'a TextMap<String>, key: &str) -> &'a str {
    labels.get(key).unwrap_or_else(|| panic!("no label {key}")).as_str()
}

fn map(entries: &[(&str, &str)]) -> TextMap<String> {
    let mut m = TextMap::new();
    for (k, v) in entries {
        m.insert(k.to_string(), v.to_string());
    }
    m
}

/// Every key is namespaced, and namespaced consistently.
#[test]
fn labels_every_key_is_under_the_one_namespace() {
    for key in all() {
        assert!(key.starts_with(&format!("{NAMESPACE}.")), "{key} should be under {NAMESPACE}");
    }
}

#[test]
fn labels_a_network_carries_the_run_identifying_labels() {
    let network = labels().for_network();
    assert_eq!(value(&network, PROJECT), "demo");
    assert_eq!(value(&network, TASK), "build");
    assert_eq!(value(&network, RUN), "run-id");
    assert_eq!(value(&network, VERSION), "0.21.1");
    // A network isn't a container: these would be meaningless on one.
    assert!(!network.contains_key(CONTAINER));
    assert!(!network.contains_key(ROLE));
}

#[test]
fn labels_a_container_also_carries_its_config_name_and_role() {
    let container = labels().for_container("database", ContainerRole::Dependency, None);
    assert_eq!(value(&container, CONTAINER), "database");
    assert_eq!(value(&container, ROLE), "dependency");
    assert_eq!(value(&container, RUN), "run-id");
    assert_eq!(value(&labels().for_container("app", ContainerRole::Task, None), ROLE), "task");
}

#[test]
fn labels_a_containers_own_configured_labels_are_kept_alongside() {
    let configured = map(&[("com.example.team", "platform")]);
    let container = labels().for_container("app", ContainerRole::Task, Some(&configured));
    assert_eq!(value(&container, "com.example.team"), "platform");
    assert_eq!(value(&container, PROJECT), "demo");
}

/// A configuration that sets one of these must not be able to make its own
/// containers unfindable.
#[test]
fn labels_ratects_own_labels_win_over_a_configured_one_of_the_same_name() {
    let configured = map(&[(RUN, "not-the-real-run"), (CONTAINER, "not-the-real-container")]);
    let container = labels().for_container("app", ContainerRole::Task, Some(&configured));
    assert_eq!(value(&container, RUN), "run-id");
    assert_eq!(value(&container, CONTAINER), "app");
}

/// With no binary version to report, the label is omitted rather than
/// invented.
#[test]
fn labels_an_unknown_version_omits_that_label_rather_than_guessing() {
    let labels = RunLabels::new("demo", "build", "run-id", None);
    assert!(!labels.for_network().contains_key(VERSION));
    assert!(!labels.for_container("app", ContainerRole::Task, None).contains_key(VERSION));
}

/// Every key is namespaced, and namespaced consistently.
#[test]
fn labels_tests_every_key_is_under_the_one_namespace() {
    for key in all() {
        assert!(key.starts_with(&format!("{NAMESPACE}.")), "{key} should be under {NAMESPACE}");
    }
}

#[test]
fn labels_tests_a_network_carries_the_run_identifying_labels() {
    let network = labels().for_network();
    assert_eq!(value(&network, PROJECT), "demo");
    assert_eq!(value(&network, TASK), "build");
    assert_eq!(value(&network, RUN), "run-id");
    assert_eq!(value(&network, VERSION), "0.21.1");
    // A network isn't a container: these would be meaningless on one.
    assert!(!network.contains_key(CONTAINER));
    assert!(!network.contains_key(ROLE));
}

#[test]
fn labels_tests_a_container_also_carries_its_config_name_and_role() {
    let container = labels().for_container("database", ContainerRole::Dependency, None);
    assert_eq!(value(&container, CONTAINER), "database");
    assert_eq!(value(&container, ROLE), "dependency");
    assert_eq!(value(&container, RUN), "run-id");
    assert_eq!(value(&labels().for_container("app", ContainerRole::Task, None), ROLE), "task");
}

#[test]
fn labels_tests_a_containers_own_configured_labels_are_kept_alongside() {
    let configured = map(&[("com.example.team", "platform")]);
    let container = labels().for_container("app", ContainerRole::Task, Some(&configured));
    assert_eq!(value(&container, "com.example.team"), "platform");
    assert_eq!(value(&container, PROJECT), "demo");
}

/// A configuration that sets one of these must not be able to make its own
/// containers unfindable.
#[test]
fn labels_tests_ratects_own_labels_win_over_a_configured_one_of_the_same_name() {
    let configured = map(&[(RUN, "not-the-real-run"), (CONTAINER, "not-the-real-container")]);
    let container = labels().for_container("app", ContainerRole::Task, Some(&configured));
    assert_eq!(value(&container, RUN), "run-id");
    assert_eq!(value(&container, CONTAINER), "app");
}

/// With no binary version to report, the label is omitted rather than
/// invented.
#[test]
fn labels_tests_an_unknown_version_omits_that_label_rather_than_guessing() {
    let labels = RunLabels::new("demo", "build", "run-id", None);
    assert!(!labels.for_network().contains_key(VERSION));
    assert!(!labels.for_container("app", ContainerRole::Task, None).contains_key(VERSION));
}

#[test]
fn the_key_list_names_each_key_once() {
    let keys = all();
    assert_eq!(keys, [PROJECT, TASK, RUN, CONTAINER, ROLE, VERSION]);
    for (i, a) in keys.iter().enumerate() {
        for b in &keys[i + 1..] {
            assert_ne!(a, b);
        }
    }
}

#[test]
fn a_network_carries_exactly_the_shared_labels() {
    let network = labels().for_network();
    assert_eq!(network.len(), 4);
    let without_version = RunLabels::new("demo", "build", "run-id", None).for_network();
    assert_eq!(without_version.len(), 3);
}

#[test]
fn a_role_spells_itself_as_the_label_value() {
    assert_eq!(ContainerRole::Task.as_str(), "task");
    assert_eq!(ContainerRole::Dependency.as_str(), "dependency");
}
