use ratect_core::git_include::{
    cache_key, info_file_name, is_old_enough, is_stale, lock_file_name, sidecar_key, sort_for_listing, stale_keys,
    CacheInfo, CachedInclude, GitIncludeError, SystemGitClient, STALE_AFTER_SECONDS,
};
use ratect_core::git_include::{next_lock_step, LockAttempt, LockStep, LOCK_RETRY_MILLIS};

#[test]
fn cache_key_is_stable_and_distinguishes_remote_and_ref() {
    let a = cache_key("https://example.com/repo.git", "v1.0.0");
    let b = cache_key("https://example.com/repo.git", "v1.0.0");
    let c = cache_key("https://example.com/repo.git", "v2.0.0");
    let d = cache_key("https://example.com/other.git", "v1.0.0");

    assert_eq!(a, b);
    assert_ne!(a, c);
    assert_ne!(a, d);
}

#[test]
fn cache_key_does_not_collide_across_the_remote_ref_boundary() {
    // A bare `" @"` separator would let a `remote` containing it collide
    // with a differently-split (remote, ref) pair.
    let a = cache_key("https://example.com/repo.git @evil-ref", "main");
    let b = cache_key("https://example.com/repo.git", "evil-ref @main");
    assert_ne!(a, b);
}

/// The key is the lower-case hex SHA-256 of the two fields, each preceded
/// by its length as a little-endian `usize`.
#[test]
fn cache_key_is_the_hex_digest_of_the_length_prefixed_fields() {
    assert_eq!(cache_key("", ""), "374708fff7719dd5979ec875d56cd2286f6d3cf7ec317a3b25632aab28ec37bb");
    assert_eq!(
        cache_key("https://example.com/repo.git", "v1.0.0"),
        "e25c9c2882c5b8110e2f491408e8ebca138dbccdf8c68ebfd6ecc42b67f9e3ec"
    );
    assert_eq!(cache_key("é", "ref"), "58fcb03ad1fbe183ec62bb7564fefaa7776dacbb976a81fbd4516705ea84507c");
}

#[test]
fn cache_key_is_sixty_four_lower_case_hex_digits() {
    let key = cache_key("r", "g");
    assert_eq!(key.len(), 64);
    assert!(key.chars().all(|c| c.is_ascii_digit() || ('a'..='f').contains(&c)));
}

#[test]
fn an_entry_has_its_sidecar_and_lock_beside_it() {
    assert_eq!(info_file_name("abc"), "abc.toml");
    assert_eq!(lock_file_name("abc"), "abc.lock");
}

#[test]
fn only_a_toml_file_with_a_stem_is_a_sidecar() {
    assert_eq!(sidecar_key("abc.toml"), Some("abc".to_string()));
    assert_eq!(sidecar_key("a.b.toml"), Some("a.b".to_string()));
    assert_eq!(sidecar_key(".toml"), None);
    assert_eq!(sidecar_key("abc"), None);
    assert_eq!(sidecar_key("abc.lock"), None);
    assert_eq!(sidecar_key("abc.toml.tmp"), None);
}

#[test]
fn a_sidecar_read_back_names_its_entry() {
    let info = CacheInfo::first_use("https://r", "v1", "0.1.0");
    let entry = CachedInclude::from_sidecar("/cache", "abc.toml", info).unwrap();
    assert_eq!(entry.key, "abc");
    assert_eq!(entry.remote, "https://r");
    assert_eq!(entry.git_ref, "v1");
    assert_eq!(entry.path, "/cache/abc");
    assert_eq!(entry.size_bytes, 0);
    assert!(CachedInclude::from_sidecar("/cache", "abc.lock", CacheInfo::first_use("r", "g", "v")).is_none());
}

/// A use bumps only `last_used`; what the sidecar recorded is kept, so a
/// later version reusing an old clone doesn't overwrite the version it was
/// cloned with.
#[test]
fn a_use_preserves_the_sidecar_and_bumps_last_used() {
    let first = CacheInfo::used(None, "https://r", "v1", "0.1.0", 100);
    assert_eq!(first.kind, "git");
    assert_eq!(first.cloned_with_version, "0.1.0");
    assert_eq!(first.last_used, 100);

    let later = CacheInfo::used(Some(first), "https://other", "v9", "0.9.0", 200);
    assert_eq!(later.remote, "https://r");
    assert_eq!(later.git_ref, "v1");
    assert_eq!(later.cloned_with_version, "0.1.0");
    assert_eq!(later.last_used, 200);
}

#[test]
fn clean_removes_what_has_gone_unused_for_longer_than_asked() {
    assert!(is_old_enough(1_000, 100, Some(60)));
    assert!(!is_old_enough(1_000, 970, Some(60)));
    assert!(!is_old_enough(1_000, 940, Some(60)), "exactly the minimum age is not older than it");
    assert!(is_old_enough(1_000, 999, None), "with no age, everything goes");
    assert!(!is_old_enough(100, 1_000, Some(0)), "a clock that went backwards counts as no time");
}

#[test]
fn an_entry_is_stale_after_thirty_days_unused() {
    assert_eq!(STALE_AFTER_SECONDS, 30 * 24 * 60 * 60);
    let now = 10_000_000;
    assert!(is_stale(now, now - STALE_AFTER_SECONDS - 1));
    assert!(!is_stale(now, now - STALE_AFTER_SECONDS));
    assert!(!is_stale(now, now));
}

fn entry(key: &str, last_used: u64) -> CachedInclude {
    CachedInclude {
        key: key.to_string(),
        remote: format!("https://{key}"),
        git_ref: "main".to_string(),
        last_used,
        path: format!("/cache/{key}"),
        size_bytes: 0,
    }
}

#[test]
fn the_sweep_names_only_stale_entries_in_the_order_found() {
    let now = 100_000_000;
    let entries = vec![entry("a", now - 40 * 86_400), entry("b", now), entry("c", now - 31 * 86_400)];
    assert_eq!(stale_keys(&entries, now), vec!["a".to_string(), "c".to_string()]);
}

#[test]
fn a_listing_is_oldest_first_then_by_key() {
    let sorted = sort_for_listing(vec![entry("b", 20), entry("c", 10), entry("a", 20), entry("d", 5)]);
    assert_eq!(sorted.iter().map(|e| e.key.as_str()).collect::<Vec<_>>(), vec!["d", "c", "a", "b"]);
}

#[test]
fn a_remote_or_ref_starting_with_a_dash_is_refused() {
    let error = SystemGitClient::check_arguments("--upload-pack=touch pwned", "v1.0.0").unwrap_err();
    assert!(error.message().contains("must not start with '-'"));
    assert!(error.message().contains("'repo'"));
    let error = SystemGitClient::check_arguments("/repo", "--upload-pack=touch pwned").unwrap_err();
    assert!(error.message().contains("must not start with '-'"));
    assert!(error.message().contains("'ref'"));
    assert!(SystemGitClient::check_arguments("/repo", "v1.0.0").is_ok());
}

#[test]
fn the_clone_keeps_its_remote_positional_and_refuses_ext() {
    let clone = SystemGitClient::clone_command("https://example.com/r.git", "/cache/key.tmp");
    assert_eq!(clone.allowed_protocols, "file:git:http:https:ssh");
    assert_eq!(clone.args, vec!["clone", "--quiet", "--no-checkout", "--", "https://example.com/r.git", "/cache/key.tmp"]);
}

#[test]
fn the_checkout_refuses_file_submodules() {
    let checkout = SystemGitClient::checkout_command("/cache/key.tmp", "v1.0.0");
    assert_eq!(checkout.allowed_protocols, "git:http:https:ssh");
    assert_eq!(
        checkout.args,
        vec!["-c", "advice.detachedHead=false", "-C", "/cache/key.tmp", "checkout", "--quiet", "--recurse-submodules", "v1.0.0"]
    );
}

#[test]
fn a_clone_is_made_beside_its_destination() {
    assert_eq!(SystemGitClient::temp_dir("/cache", "key"), "/cache/key.tmp");
}

#[test]
fn a_failed_clone_says_what_git_said_trimmed() {
    let error = SystemGitClient::clone_failure("r", "exit status: 128", "\n  fatal: no such ref  \n");
    assert_eq!(error.message(), "Could not clone repository 'r': git exited with exit status: 128: fatal: no such ref");
    let error = SystemGitClient::checkout_failure("v9", "r", "exit status: 1", "error: pathspec\n");
    assert!(matches!(error, GitIncludeError::CheckoutFailed { .. }));
    assert_eq!(
        error.message(),
        "Could not check out reference 'v9' for repository 'r': git exited with exit status: 1: error: pathspec"
    );
}

#[test]
fn a_held_lock_is_waited_for_until_the_timeout_has_passed() {
    assert_eq!(next_lock_step(LockAttempt::Created, 5_000, 1_000), LockStep::Acquired);
    assert_eq!(next_lock_step(LockAttempt::HeldElsewhere, 0, 1_000), LockStep::WaitAndRetry);
    assert_eq!(next_lock_step(LockAttempt::HeldElsewhere, 1_000, 1_000), LockStep::WaitAndRetry);
    assert_eq!(next_lock_step(LockAttempt::HeldElsewhere, 1_001, 1_000), LockStep::TimedOut);
    assert_eq!(next_lock_step(LockAttempt::Failed, 0, 1_000), LockStep::Failed);
    assert_eq!(LOCK_RETRY_MILLIS, 100);
}

#[test]
fn every_way_of_splitting_the_same_characters_gets_its_own_key() {
    let keys = vec![
        cache_key("", "ab"),
        cache_key("a", "b"),
        cache_key("ab", ""),
        cache_key("b", "a"),
    ];
    for i in 0..keys.len() {
        assert_eq!(keys[i].len(), 64);
        for j in 0..i {
            assert_ne!(keys[i], keys[j]);
        }
    }
}
