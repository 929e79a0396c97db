use ratect_core::labels::{CONTAINER, PROJECT, TASK};
use ratect_core::resources::{project_filter, removal_order, removed_count, select_leftovers, LabelledResource, Leftover};
use ratect_core::text_map::TextMap;

fn resource(id: &str, name: &str, labels: &[(&str, &str)], created: i64, state: Option<&str>) -> LabelledResource {
    let mut map = TextMap::new();
    for (key, value) in labels {
        map.insert(key.to_string(), value.to_string());
    }
    LabelledResource {
        id: id.to_string(),
        name: name.to_string(),
        labels: map,
        created: Some(created),
        state: state.map(str::to_string),
    }
}

/// A container of this project's, created at `created`.
fn container(id: &str, created: i64) -> LabelledResource {
    resource(id, "nostalgic_hopper", &[(PROJECT, "demo"), (CONTAINER, id)], created, Some("exited"))
}

/// A network of this project's, created at `created`.
fn network(id: &str, created: i64) -> LabelledResource {
    resource(id, "ratect-xyz", &[(PROJECT, "demo")], created, None)
}

/// A container is described by its configured name, not Docker's randomly
/// generated one.
#[test]
fn a_leftover_is_described_in_the_terms_the_config_uses() {
    let container = Leftover::new(
        resource("abc", "nostalgic_hopper", &[(CONTAINER, "database"), (TASK, "check")], 1_000, Some("exited")),
        2_000,
    );
    assert_eq!(container.describe(), "container database (exited)");
    assert_eq!(container.task, "check");
    assert_eq!(container.age_seconds, 1_000);
    assert!(!container.is_network);

    let network = Leftover::new(resource("def", "ratect-xyz", &[], 1_000, None), 2_000);
    assert_eq!(network.describe(), "network ratect-xyz");
    assert!(network.is_network);
}

/// A resource missing labels is still listable.
#[test]
fn a_leftover_missing_labels_reads_as_unknown_rather_than_failing() {
    let leftover = Leftover::new(resource("abc", "some_name", &[], 1_000, Some("running")), 2_000);
    assert_eq!(leftover.task, "unknown");
    assert_eq!(leftover.run, "unknown");
    // Falls back to Docker's own name when there's no container label.
    assert_eq!(leftover.describe(), "container some_name (running)");
}

#[test]
fn a_container_with_no_known_state_is_described_without_one() {
    let mut unknown = container("c", 1_000);
    unknown.state = Some("created".to_string());
    assert_eq!(Leftover::new(unknown, 1_000).describe(), "container c (created)");
}

#[test]
fn an_unknown_creation_time_counts_as_brand_new() {
    let mut r = container("c", 0);
    r.created = None;
    assert_eq!(Leftover::new(r, 5_000).age_seconds, 0);
}

/// `--older-than` is how a sweep avoids tearing down an in-flight run.
#[test]
fn an_age_excludes_a_young_leftover_and_keeps_an_old_one() {
    let all = select_leftovers(vec![container("young", 970), container("old", 100)], None, 1_000);
    assert_eq!(all.len(), 2, "with no age, everything is a candidate");

    let old = select_leftovers(vec![container("young", 970), container("old", 100)], Some(60), 1_000);
    assert_eq!(
        old.iter().map(|l| l.resource.id.as_str()).collect::<Vec<_>>(),
        vec!["old"],
        "30 seconds old is younger than the 60 asked for"
    );
}

/// Everything selected is a removal candidate, so the project label is
/// re-checked on this side, whatever the daemon returned.
#[test]
fn a_resource_without_the_project_label_is_never_a_candidate() {
    let found = vec![
        container("ours", 100),
        resource("theirs", "some_other_tool", &[], 100, Some("running")),
        resource("their-net", "bridge", &[], 100, None),
    ];

    let selected = select_leftovers(found, None, 1_000);
    assert_eq!(selected.iter().map(|l| l.resource.id.as_str()).collect::<Vec<_>>(), vec!["ours"]);
}

/// "Every project" filters on the label existing, never on nothing.
#[test]
fn every_project_still_filters_on_having_the_project_label() {
    assert_eq!(project_filter(None), (PROJECT.to_string(), None));
}

/// A named project narrows to that project's own label value.
#[test]
fn a_named_project_filters_on_its_own_label_value() {
    assert_eq!(project_filter(Some("demo")), (PROJECT.to_string(), Some("demo".to_string())));
}

/// A network still holding an endpoint can't be removed, so containers go
/// first whatever order the leftovers come in.
#[test]
fn containers_are_removed_before_networks() {
    let leftovers = vec![
        Leftover::new(network("net", 100), 1_000),
        Leftover::new(container("one", 100), 1_000),
        Leftover::new(container("two", 100), 1_000),
    ];

    let order = removal_order(&leftovers);

    assert_eq!(order, vec![1, 2, 0]);
    assert_eq!(leftovers[*order.last().unwrap()].resource.id, "net");
}

/// One failure doesn't abandon the rest; the count is what actually went.
#[test]
fn one_failure_does_not_abandon_the_rest() {
    let leftovers = vec![
        Leftover::new(container("stuck", 100), 1_000),
        Leftover::new(container("fine", 100), 1_000),
        Leftover::new(network("net", 100), 1_000),
    ];

    let order = removal_order(&leftovers);
    assert_eq!(order, vec![0, 1, 2], "every one is attempted, containers first");
    let outcomes: Vec<bool> = order.iter().map(|&i| leftovers[i].resource.id != "stuck").collect();
    assert_eq!(removed_count(&outcomes), 2, "the count reflects what actually went");
}

#[test]
fn the_order_of_each_kind_is_kept() {
    let leftovers = vec![
        Leftover::new(network("n1", 100), 1_000),
        Leftover::new(container("c1", 100), 1_000),
        Leftover::new(network("n2", 100), 1_000),
        Leftover::new(container("c2", 100), 1_000),
    ];

    assert_eq!(removal_order(&leftovers), vec![1, 3, 0, 2]);
}
