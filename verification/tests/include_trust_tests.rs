use ratect_core::include_trust::{
    boundary_contains, check_dialect, check_may_declare_git, hide_clone_detail, refuse_read, refusing_nested_git,
    restricting, Boundary, Bundle, BundleId, Canonicalized, ConfigFormat, EffectiveGrants, Grants, RealPathSearch,
    RealPathStep, Trust, TrustError,
};

fn id(remote: &str) -> BundleId {
    BundleId { remote: remote.to_string(), git_ref: "main".to_string() }
}

fn asks(host_paths: bool, nested_git: Option<bool>) -> Grants {
    Grants { host_paths, nested_git }
}

/// The rule table both walkers share.
#[test]
fn an_owned_file_confers_exactly_what_it_asks_for() {
    let nothing = Bundle::granted(None, id("a"), asks(false, None));
    assert_eq!(nothing.trust, Trust::none());

    let host = Bundle::granted(None, id("a"), asks(true, None));
    assert!(host.trust.host_paths && !host.trust.nested_git);

    let nested = Bundle::granted(None, id("a"), asks(false, Some(true)));
    assert!(!nested.trust.host_paths && nested.trust.nested_git);

    let both = Bundle::granted(None, id("a"), asks(true, Some(true)));
    assert!(both.trust.host_paths && both.trust.nested_git);
}

/// Writing the field as `false` is the same as not writing it.
#[test]
fn an_explicit_false_confers_nothing() {
    let explicit = Bundle::granted(None, id("a"), asks(false, Some(false)));
    assert_eq!(explicit.trust, Trust::none());
}

/// A bundle can neither grant itself anything nor pass on what it was
/// granted, however loudly its own entries ask.
#[test]
fn a_bundle_cannot_grant_anything_however_much_it_asks() {
    let granted = Bundle::granted(None, id("outer"), asks(true, Some(true)));
    assert!(granted.trust.host_paths && granted.trust.nested_git);

    let passed_on = Bundle::granted(Some(&granted), id("inner"), asks(true, Some(true)));
    assert_eq!(passed_on.trust, Trust::none(), "a grant stops at the bundle it admits");

    let third = Bundle::granted(Some(&passed_on), id("deeper"), asks(true, Some(true)));
    assert_eq!(third.trust, Trust::none());
}

/// Nothing restricts a `batect.yml`.
#[test]
fn a_batect_yml_is_never_restricted() {
    let bundle = Bundle::granted(None, id("outer"), asks(false, None));
    assert!(restricting(Some(&bundle), ConfigFormat::Compat).is_none());
    assert!(restricting(Some(&bundle), ConfigFormat::Native).is_some());
}

/// An owned file declares its own includes, so there is no bundle to ask.
#[test]
fn an_owned_file_is_never_restricted() {
    assert!(restricting(None, ConfigFormat::Native).is_none());
    assert!(restricting(None, ConfigFormat::Compat).is_none());
}

#[test]
fn a_restricted_bundle_may_declare_a_git_include_only_when_granted() {
    let ungranted = Bundle::granted(None, id("outer"), asks(false, None));
    let error = check_may_declare_git(Some(&ungranted), "inner").unwrap_err();
    let message = error.message();
    assert!(
        message.contains("The bundle 'outer' at 'main' declares a Git include of its own"),
        "names the bundle responsible, not just the remote it wanted: {message}"
    );
    assert!(message.contains("Set 'allow_nested_git_includes' to true"), "gives the remedy: {message}");
    assert!(
        !message.contains(": true") && !message.contains("= true"),
        "names the field without spelling either syntax: {message}"
    );

    let granted = Bundle::granted(None, id("outer"), asks(false, Some(true)));
    assert!(check_may_declare_git(Some(&granted), "inner").is_ok());
    assert!(check_may_declare_git(None, "inner").is_ok());
}

/// The same decision through the entry point completion uses.
#[test]
fn completion_and_the_loader_read_one_answer() {
    let ungranted = Bundle::granted(None, id("outer"), asks(false, None));
    let granted = Bundle::granted(None, id("outer"), asks(false, Some(true)));

    for restricted in [Some(&ungranted), Some(&granted), None] {
        assert_eq!(
            refusing_nested_git(restricted).is_some(),
            check_may_declare_git(restricted, "inner").is_err(),
            "completion declines exactly when the loader refuses"
        );
        assert_eq!(
            refuse_read(check_may_declare_git(restricted, "inner")),
            refusing_nested_git(restricted).is_some()
        );
    }
}

#[test]
fn the_native_only_field_is_refused_in_a_compat_project() {
    let error = check_dialect(asks(false, Some(true)), None, "inner", ConfigFormat::Compat).unwrap_err();
    let message = error.message();
    assert!(message.contains("The Git include of 'inner' sets 'allow_nested_git_includes'"));
    assert!(message.contains("not supported in Batect-compatible configuration"));
}

/// The field can appear inside a bundle, which a `ratect-compat` user
/// cannot edit.
#[test]
fn the_compat_refusal_names_the_bundle_that_wrote_the_field() {
    let declaring = Bundle::granted(None, id("outer"), asks(false, None));
    let error = check_dialect(asks(false, Some(true)), Some(&declaring), "inner", ConfigFormat::Compat).unwrap_err();
    assert!(error
        .message()
        .contains("The bundle 'outer' at 'main' sets 'allow_nested_git_includes' on its Git include of 'inner'"));
}

/// Rejected whichever value was written: the field is unsupported, not the
/// permission.
#[test]
fn a_compat_project_refuses_the_field_set_to_false_too() {
    assert!(check_dialect(asks(false, Some(false)), None, "inner", ConfigFormat::Compat).is_err());
    assert!(check_dialect(asks(false, None), None, "inner", ConfigFormat::Compat).is_ok());
    assert!(check_dialect(asks(false, Some(true)), None, "inner", ConfigFormat::Native).is_ok());
}

#[test]
fn an_unrestricted_clone_failure_keeps_gits_own_error() {
    let error = hide_clone_detail("fatal: could not read from remote", "r", "v1", None);
    let message = error.message();
    assert!(message.contains("Failed to resolve Git include 'r' at 'v1'"));
    assert!(
        message.contains("fatal: could not read from remote"),
        "the owner named this remote themselves, so the detail is theirs: {message}"
    );
}

#[test]
fn a_restricted_clone_failure_withholds_gits_error() {
    let declaring = Bundle::granted(None, id("outer"), asks(false, Some(true)));
    let error = hide_clone_detail("fatal: could not read from remote", "internal.example", "v1", Some(&declaring));
    let message = error.message();
    assert!(
        !message.contains("fatal: could not read from remote"),
        "a bundle able to name hosts and read the log can walk a network: {message}"
    );
    assert!(message.contains("declared by the bundle 'outer' at 'main'"));
    assert!(message.contains("RUST_LOG=debug"));
}

#[test]
fn a_grant_the_winning_route_did_not_carry_is_refused() {
    let file = "/clone/bundle.toml";
    let mut effective = EffectiveGrants::new();
    effective.record(file.to_string(), Trust::none());

    for (wanted, field) in [
        (Trust { host_paths: true, nested_git: false }, "allow_host_paths"),
        (Trust { host_paths: false, nested_git: true }, "allow_nested_git_includes"),
    ] {
        let error = effective.check(file, wanted, "shared").unwrap_err();
        let message = error.message();
        assert!(
            message.contains(&format!("'{field}' was set on the include of 'shared'")),
            "names the field that did nothing and the repository it was on: {message}"
        );
        assert!(message.contains("Declare this include in your root configuration file"), "gives the remedy: {message}");
    }
}

#[test]
fn both_lost_grants_are_named_together() {
    let mut effective = EffectiveGrants::new();
    effective.record("/f".to_string(), Trust::none());
    let error = effective.check("/f", Trust { host_paths: true, nested_git: true }, "shared").unwrap_err();
    assert!(error
        .message()
        .contains("'allow_host_paths' and 'allow_nested_git_includes' were set on the include of 'shared'"));
    assert!(error.message().contains("the permissions would have had no effect"));
}

/// The ordinary case: a route asking for less than the winning one.
#[test]
fn a_route_asking_for_less_than_the_winner_still_loads() {
    let file = "/clone/bundle.toml";
    let mut effective = EffectiveGrants::new();
    effective.record(file.to_string(), Trust { host_paths: true, nested_git: true });

    assert!(effective.check(file, Trust::none(), "shared").is_ok());
    assert!(effective.check(file, Trust { host_paths: true, nested_git: false }, "shared").is_ok());
}

/// A file nothing has recorded yet carries nothing.
#[test]
fn an_unrecorded_file_is_treated_as_granted_nothing() {
    let effective = EffectiveGrants::new();
    let file = "/clone/bundle.toml";
    assert!(effective.check(file, Trust::none(), "shared").is_ok());
    assert!(effective.check(file, Trust { host_paths: true, nested_git: false }, "shared").is_err());
}

#[test]
fn the_first_route_to_a_file_is_the_one_kept() {
    let mut effective = EffectiveGrants::new();
    effective.record("/f".to_string(), Trust::none());
    effective.record("/f".to_string(), Trust { host_paths: true, nested_git: true });
    assert!(effective.check("/f", Trust { host_paths: true, nested_git: false }, "r").is_err());
}

#[test]
fn a_file_loaded_outside_every_boundary_loses_nothing() {
    let mut effective = EffectiveGrants::new();
    effective.record_unbounded("/own.toml".to_string());
    assert!(effective.check("/own.toml", Trust { host_paths: true, nested_git: true }, "r").is_ok());
}

fn boundary(host_paths: bool) -> Boundary {
    Boundary {
        repo_dir: "/cache/repo".to_string(),
        bundle: Bundle { id: id("outer"), trust: Trust { host_paths, nested_git: false } },
    }
}

#[test]
fn an_include_inside_the_repository_is_contained() {
    assert!(boundary(false).check_contains("/cache/repo/sub/file.yml").is_ok());
    assert!(boundary(false).check_contains("/cache/repo/./sub/../file.yml").is_ok());
}

/// A `..` traversal is cleaned before the prefix test, which would pass it
/// otherwise.
#[test]
fn a_traversal_out_of_the_repository_is_refused_by_its_spelling() {
    let error = boundary(false).check_contains("/cache/repo/../../etc/passwd").unwrap_err();
    assert!(error.message().contains("Included file '/etc/passwd' escapes the Git repository 'outer' at 'main'"));
    assert!(!error.message().contains("via a symlink"));
}

#[test]
fn an_owned_file_has_no_boundary_to_check() {
    assert_eq!(boundary_contains(None, "/anywhere").ok(), Some(false));
    assert_eq!(boundary_contains(Some(&boundary(false)), "/cache/repo/x").ok(), Some(true));
    assert!(boundary_contains(Some(&boundary(false)), "/elsewhere").is_err());
}

#[test]
fn a_symlink_out_of_the_repository_is_refused() {
    let b = boundary(false);
    assert!(b
        .check_contains_canonical("/cache/repo/x", Ok("/cache/repo/x".to_string()), Ok("/cache/repo".to_string()))
        .is_ok());
    let error = b
        .check_contains_canonical("/cache/repo/link", Ok("/etc/passwd".to_string()), Ok("/cache/repo".to_string()))
        .unwrap_err();
    assert!(error.message().contains("(via a symlink)"));
    let unreadable = b.check_contains_canonical("/cache/repo/missing", Err("not found".to_string()), Ok(String::new()));
    assert!(matches!(unreadable, Err(TrustError::Unreadable { .. })));
}

#[test]
fn a_container_path_may_be_in_the_repository_or_the_project() {
    let b = boundary(false);
    assert_eq!(b.check_path_allowed("/cache/repo/data", "/project").unwrap(), Some("/cache/repo/data".to_string()));
    assert_eq!(b.check_path_allowed("/project/out", "/project").unwrap(), Some("/project/out".to_string()));
    let error = b.check_path_allowed("/project/../../etc", "/project").unwrap_err();
    assert!(error.message().contains("Path '/etc' escapes both the Git repository 'outer' at 'main'"));
    assert!(error.message().contains("set 'allow_host_paths' to true on the include entry for 'outer'"));
}

#[test]
fn a_bundle_granted_host_paths_may_mount_anything() {
    assert_eq!(boundary(true).check_path_allowed("/etc", "/project").unwrap(), None);
}

#[test]
fn where_a_container_path_really_points_decides_too() {
    let b = boundary(false);
    let real = |p: &str| Ok::<String, String>(p.to_string());
    assert!(b.check_real_path_allowed("/project/x", "/project", real("/project/x"), real("/cache/repo"), real("/project")).is_ok());
    let error = b
        .check_real_path_allowed("/cache/repo/link", "/project", real("/etc"), real("/cache/repo"), real("/project"))
        .unwrap_err();
    assert!(error.message().contains("(via a symlink)"));
    let unresolvable = b
        .check_real_path_allowed("/cache/repo/x", "/project", Err("permission denied".to_string()), real("/r"), real("/p"))
        .unwrap_err();
    assert!(unresolvable.message().contains("Cannot determine where '/cache/repo/x' really points"));
}

fn split(parent: &str, name: &str) -> Option<(String, String)> {
    Some((parent.to_string(), name.to_string()))
}

#[test]
fn a_missing_tail_is_appended_again_to_the_real_ancestor_in_order() {
    let mut search = RealPathSearch::new("/link/b/c");
    assert_eq!(search.candidate(), "/link/b/c");
    assert!(matches!(search.step(Canonicalized::Missing, split("/link/b", "c")), RealPathStep::Try(t) if t == "/link/b"));
    assert_eq!(search.candidate(), "/link/b");
    assert!(matches!(search.step(Canonicalized::Missing, split("/link", "b")), RealPathStep::Try(t) if t == "/link"));
    match search.step(Canonicalized::Found("/real/target".to_string()), split("/", "link")) {
        RealPathStep::Resolved(real) => assert_eq!(real, "/real/target/b/c"),
        _ => panic!("an existing ancestor ends the search"),
    }
}

#[test]
fn a_path_with_no_existing_ancestor_resolves_to_itself() {
    let mut search = RealPathSearch::new("nowhere");
    assert!(matches!(search.step(Canonicalized::Missing, split("", "nowhere")), RealPathStep::Try(t) if t.is_empty()));
    match search.step(Canonicalized::Missing, None) {
        RealPathStep::Resolved(real) => assert_eq!(real, "nowhere"),
        _ => panic!("a search with nothing left ends"),
    }
}

#[test]
fn a_failure_other_than_a_missing_component_ends_the_search() {
    let mut search = RealPathSearch::new("/locked/x");
    match search.step(Canonicalized::Failed("Permission denied".to_string()), split("/locked", "x")) {
        RealPathStep::Failed(reason) => assert_eq!(reason, "Permission denied"),
        _ => panic!("only a missing component lets the search go on"),
    }
}

#[test]
fn an_existing_path_resolves_to_its_canonical_form_alone() {
    let mut search = RealPathSearch::new("/a/./b");
    match search.step(Canonicalized::Found("/a/b".to_string()), split("/a/.", "b")) {
        RealPathStep::Resolved(real) => assert_eq!(real, "/a/b"),
        _ => panic!("a found path ends the search"),
    }
}

#[test]
fn an_unreadable_path_is_quoted_with_escapes() {
    let b = boundary(false);
    let plain = b.check_contains_canonical("/cache/repo/missing", Err("not found".to_string()), Ok(String::new()));
    assert_eq!(plain.unwrap_err().message(), "Failed to resolve \"/cache/repo/missing\": not found");
    let odd = b.check_contains_canonical("/cache/re\"po\\x", Err("not found".to_string()), Ok(String::new()));
    assert_eq!(odd.unwrap_err().message(), "Failed to resolve \"/cache/re\\\"po\\\\x\": not found");
}
