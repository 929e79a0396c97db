use ratect_core::registry_auth::{
    configured_registries, credential_verdict, is_credentials_not_found, registry_hostname, CredentialLookup,
    CredentialVerdict, DockerCredentialHelperResolver,
};

/// The keys of the object `field` of a `config.json`, as the caller hands
/// them over: none where the file is not a JSON object, or lacks the field.
fn keys_of(config: &str, field: &str) -> Vec<String> {
    match serde_json::from_str::<serde_json::Value>(config) {
        Ok(serde_json::Value::Object(root)) => match root.get(field) {
            Some(serde_json::Value::Object(entries)) => entries.keys().cloned().collect(),
            _ => Vec::new(),
        },
        _ => Vec::new(),
    }
}

fn registries_of(config: &str) -> Vec<String> {
    configured_registries(&keys_of(config, "auths"), &keys_of(config, "credHelpers"))
}

#[test]
fn a_bare_single_segment_name_has_no_domain() {
    assert_eq!(registry_hostname("nginx"), "docker.io");
}

#[test]
fn a_bare_single_segment_name_has_no_domain_even_if_it_would_otherwise_look_like_one() {
    assert_eq!(registry_hostname("localhost"), "docker.io");
    assert_eq!(registry_hostname("MyRegistry"), "docker.io");
    assert_eq!(registry_hostname("example.com"), "docker.io");
}

#[test]
fn a_two_segment_name_with_no_domain_like_first_segment_has_no_domain() {
    assert_eq!(registry_hostname("myuser/myimage"), "docker.io");
}

#[test]
fn a_dotted_first_segment_is_the_domain() {
    assert_eq!(registry_hostname("myregistry.example.com/foo/bar"), "myregistry.example.com");
}

#[test]
fn localhost_is_always_a_domain() {
    assert_eq!(registry_hostname("localhost/foo"), "localhost");
}

#[test]
fn localhost_with_a_port_is_the_domain_including_the_port() {
    assert_eq!(registry_hostname("localhost:5000/foo"), "localhost:5000");
}

#[test]
fn index_docker_io_canonicalizes_to_docker_io() {
    assert_eq!(registry_hostname("index.docker.io/library/nginx"), "docker.io");
}

#[test]
fn any_uppercase_character_in_the_first_segment_makes_it_a_domain() {
    assert_eq!(registry_hostname("MyRegistry/foo/bar"), "MyRegistry");
}

#[test]
fn an_empty_first_segment_is_no_domain() {
    assert_eq!(registry_hostname("/foo"), "docker.io");
}

#[test]
fn configured_registries_unions_auths_and_cred_helpers_keys() {
    let config = r#"{
        "auths": {
            "myregistry.example.com": { "auth": "dGVzdDp0ZXN0" }
        },
        "credHelpers": {
            "123456789.dkr.ecr.us-east-1.amazonaws.com": "ecr-login"
        }
    }"#;
    assert_eq!(
        registries_of(config),
        vec!["123456789.dkr.ecr.us-east-1.amazonaws.com".to_string(), "myregistry.example.com".to_string(),]
    );
}

#[test]
fn configured_registries_deduplicates_a_registry_in_both_maps() {
    let config = r#"{
        "auths": { "myregistry.example.com": { "auth": "dGVzdDp0ZXN0" } },
        "credHelpers": { "myregistry.example.com": "some-helper" }
    }"#;
    assert_eq!(registries_of(config), vec!["myregistry.example.com".to_string()]);
}

#[test]
fn configured_registries_is_empty_for_a_config_with_neither_field() {
    assert_eq!(registries_of("{}"), Vec::<String>::new());
}

#[test]
fn configured_registries_is_empty_for_malformed_json() {
    assert_eq!(registries_of("not json at all"), Vec::<String>::new());
}

#[test]
fn configured_registries_sorts_and_deduplicates_within_one_list() {
    let auths = vec!["b".to_string(), "a".to_string(), "b".to_string()];
    assert_eq!(configured_registries(&auths, &Vec::new()), vec!["a".to_string(), "b".to_string()]);
}

#[test]
fn recognizes_the_real_credential_helpers_not_found_sentinel() {
    assert!(is_credentials_not_found("credentials not found in native keychain"));
    // Real output isn't necessarily trimmed to exactly the sentinel.
    assert!(is_credentials_not_found("error getting credentials - credentials not found in native keychain\n"));
}

#[test]
fn does_not_treat_an_unrelated_helper_failure_as_not_found() {
    assert!(!is_credentials_not_found(""));
    assert!(!is_credentials_not_found("exec: \"docker-credential-nonexistent\": executable file not found in $PATH"));
}

#[test]
fn a_resolver_reads_config_json_in_the_directory_it_is_given() {
    assert_eq!(DockerCredentialHelperResolver::new("/home/u/.docker").config_path(), "/home/u/.docker/config.json");
    assert_eq!(DockerCredentialHelperResolver::new("/home/u/.docker/").config_path(), "/home/u/.docker/config.json");
}

#[test]
fn a_helper_saying_it_holds_nothing_means_nothing_is_configured() {
    let quiet = CredentialLookup::HelperFailed {
        stdout: "credentials not found in native keychain\n".to_string(),
        stderr: String::new(),
    };
    assert_eq!(credential_verdict(&quiet), CredentialVerdict::NothingConfigured);
    let on_stderr = CredentialLookup::HelperFailed {
        stdout: String::new(),
        stderr: "error: credentials not found in native keychain".to_string(),
    };
    assert_eq!(credential_verdict(&on_stderr), CredentialVerdict::NothingConfigured);
    let broken = CredentialLookup::HelperFailed { stdout: String::new(), stderr: "keychain locked".to_string() };
    assert_eq!(credential_verdict(&broken), CredentialVerdict::Fail);
}

#[test]
fn a_missing_configuration_means_nothing_is_configured_and_a_found_credential_is_used() {
    assert_eq!(credential_verdict(&CredentialLookup::NoConfigFile), CredentialVerdict::NothingConfigured);
    assert_eq!(credential_verdict(&CredentialLookup::NothingConfigured), CredentialVerdict::NothingConfigured);
    assert_eq!(credential_verdict(&CredentialLookup::Found), CredentialVerdict::UseCredential);
    assert_eq!(credential_verdict(&CredentialLookup::Failed), CredentialVerdict::Fail);
}
