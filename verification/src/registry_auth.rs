//! Which registry an image reference names, which registries a Docker
//! `config.json` declares credentials for, and how a credential helper says
//! that it holds nothing for a registry.

use vstd::prelude::*;

use crate::text::{
    join_path, joined_path,
    chars_of, contains_text, has_substring, index_of_char, lemma_index_of_char, lemma_text_less_irreflexive,
    lemma_text_less_total, lemma_text_less_transitive, less_than, str_eq, string_of_range, text_less,
};

verus! {

/// The registry every reference without an explicit one names.
pub open spec fn docker_io() -> Seq<char> {
    "docker.io"@
}

/// Whether a reference's first path segment names a registry domain: it is
/// `localhost`, holds a `.` or a `:`, or has any upper-case letter.
pub open spec fn looks_like_domain(segment: Seq<char>) -> bool {
    segment == "localhost"@ || segment.contains('.') || segment.contains(':') || exists|k: int|
        0 <= k < segment.len() && 'A' <= #[trigger] segment[k] && segment[k] <= 'Z'
}

/// The registry hostname an image reference names — `docker.io` when it
/// has no explicit one. Only a reference with a `/` has a domain, and then
/// only when its first segment looks like one; `index.docker.io` is
/// canonicalized to `docker.io`.
pub open spec fn registry_hostname_spec(reference: Seq<char>) -> Seq<char> {
    let k = index_of_char(reference, '/');
    if k < 0 {
        docker_io()
    } else {
        let first = reference.take(k);
        if first == "index.docker.io"@ {
            docker_io()
        } else if looks_like_domain(first) {
            first
        } else {
            docker_io()
        }
    }
}

/// The registry hostname `image_reference` names, following the `docker`
/// CLI's own reference-parsing rule.
pub fn registry_hostname(image_reference: &str) -> (host: String)
    ensures
        host@ == registry_hostname_spec(image_reference@),
{
    let chars = chars_of(image_reference);
    let mut slash: usize = 0;
    while slash < chars.len() && chars[slash] != '/'
        invariant
            slash <= chars.len(),
            forall|k: int| 0 <= k < slash ==> chars@[k] != '/',
        decreases chars.len() - slash,
    {
        slash = slash + 1;
    }
    proof {
        lemma_index_of_char(chars@, '/', slash as int);
    }
    if slash == chars.len() {
        return "docker.io".to_owned();
    }
    let first = string_of_range(chars.as_slice(), 0, slash);
    let ghost first_seq = chars@.take(slash as int);
    assert(first@ =~= first_seq);
    if str_eq(first.as_str(), "index.docker.io") {
        return "docker.io".to_owned();
    }
    let mut dotted = false;
    let mut coloned = false;
    let mut upper = false;
    let mut k: usize = 0;
    while k < slash
        invariant
            k <= slash < chars.len(),
            first_seq == chars@.take(slash as int),
            dotted == exists|m: int| 0 <= m < k && first_seq[m] == '.',
            coloned == exists|m: int| 0 <= m < k && first_seq[m] == ':',
            upper == exists|m: int| 0 <= m < k && 'A' <= #[trigger] first_seq[m] && first_seq[m] <= 'Z',
        decreases slash - k,
    {
        let c = chars[k];
        assert(first_seq[k as int] == c);
        if c == '.' {
            dotted = true;
        }
        if c == ':' {
            coloned = true;
        }
        if 'A' <= c && c <= 'Z' {
            upper = true;
        }
        k = k + 1;
    }
    proof {
        if dotted {
            let m = choose|m: int| 0 <= m < k && first_seq[m] == '.';
            assert(first_seq.contains('.'));
        }
        if coloned {
            let m = choose|m: int| 0 <= m < k && first_seq[m] == ':';
            assert(first_seq.contains(':'));
        }
        if first_seq.contains('.') {
            let m = choose|m: int| 0 <= m < first_seq.len() && first_seq[m] == '.';
            assert(dotted);
        }
        if first_seq.contains(':') {
            let m = choose|m: int| 0 <= m < first_seq.len() && first_seq[m] == ':';
            assert(coloned);
        }
    }
    if str_eq(first.as_str(), "localhost") || dotted || coloned || upper {
        first
    } else {
        "docker.io".to_owned()
    }
}

/// A reference with a `/` whose first segment holds a `:` (a host and
/// port, whatever the host), a `.` (a domain, but for the canonical
/// `index.docker.io`) or an upper-case letter, or is `localhost`, names
/// that segment as its registry: `registry:5000/team/app` names
/// `registry:5000`.
pub proof fn lemma_explicit_registry_is_named(first: Seq<char>, rest: Seq<char>)
    requires
        forall|k: int| 0 <= k < first.len() ==> first[k] != '/',
        (exists|k: int| 0 <= k < first.len() && first[k] == ':') || ((exists|k: int|
            0 <= k < first.len() && first[k] == '.') && first != "index.docker.io"@) || first == "localhost"@ || exists|k: int|
            0 <= k < first.len() && 'A' <= #[trigger] first[k] && first[k] <= 'Z',
    ensures
        registry_hostname_spec(first + seq!['/'] + rest) == first,
{
    let reference = first + seq!['/'] + rest;
    assert forall|k: int| 0 <= k < first.len() implies reference[k] != '/' by {
        assert(reference[k] == first[k]);
    }
    assert(reference[first.len() as int] == '/');
    lemma_index_of_char(reference, '/', first.len() as int);
    assert(reference.take(first.len() as int) =~= first);
    reveal_strlit("index.docker.io");
    reveal_strlit("localhost");
    if first == "index.docker.io"@ {
        if exists|k: int| 0 <= k < first.len() && first[k] == ':' {
            let k = choose|k: int| 0 <= k < first.len() && first[k] == ':';
            assert(first[k] == "index.docker.io"@[k]);
        } else if first == "localhost"@ {
            assert(first.len() != "index.docker.io"@.len());
        } else if exists|k: int| 0 <= k < first.len() && 'A' <= #[trigger] first[k] && first[k] <= 'Z' {
            let k = choose|k: int| 0 <= k < first.len() && 'A' <= #[trigger] first[k] && first[k] <= 'Z';
            assert(first[k] == "index.docker.io"@[k]);
        }
    }
    if exists|k: int| 0 <= k < first.len() && first[k] == ':' {
        assert(first.contains(':'));
    } else if exists|k: int| 0 <= k < first.len() && first[k] == '.' {
        assert(first.contains('.'));
    }
}

/// A reference without a `/` names no registry of its own: it is Docker
/// Hub's, whatever it holds.
pub proof fn lemma_reference_without_slash_is_docker_hub(reference: Seq<char>)
    requires
        forall|k: int| 0 <= k < reference.len() ==> reference[k] != '/',
    ensures
        registry_hostname_spec(reference) == "docker.io"@,
{
    lemma_index_of_char(reference, '/', reference.len() as int);
}

/// Whether a sequence of texts is in strictly ascending order — sorted, with
/// no text twice.
pub open spec fn strictly_ascending(items: Seq<Seq<char>>) -> bool {
    forall|i: int, j: int| 0 <= i < j < items.len() ==> text_less(#[trigger] items[i], #[trigger] items[j])
}

/// The texts of a list of strings.
pub open spec fn texts(items: Seq<String>) -> Seq<Seq<char>> {
    items.map_values(|s: String| s@)
}

/// Inserts `item` into the ascending list `sorted`, unless it is already
/// there.
pub(crate) fn insert_sorted(sorted: &mut Vec<String>, item: &String)
    requires
        strictly_ascending(texts(old(sorted)@)),
    ensures
        strictly_ascending(texts(final(sorted)@)),
        texts(final(sorted)@).to_set() == texts(old(sorted)@).to_set().insert(item@),
{
    let ghost before = texts(sorted@);
    let mut i: usize = 0;
    while i < sorted.len() && less_than(sorted[i].as_str(), item.as_str())
        invariant
            i <= sorted.len(),
            texts(sorted@) == before,
            strictly_ascending(before),
            forall|m: int| 0 <= m < i ==> text_less(#[trigger] before[m], item@),
        decreases sorted.len() - i,
    {
        i = i + 1;
    }
    if i < sorted.len() && str_eq(sorted[i].as_str(), item.as_str()) {
        assert(before.to_set().insert(item@) =~= before.to_set()) by {
            assert(before[i as int] == item@);
        }
        return;
    }
    proof {
        if i < sorted.len() {
            lemma_text_less_total(before[i as int], item@);
        }
    }
    let ghost after_i = i;
    sorted.insert(i, item.clone());
    proof {
        let after = texts(sorted@);
        assert(after =~= before.insert(i as int, item@));
        assert forall|a: int, b: int| 0 <= a < b < after.len() implies text_less(#[trigger] after[a], #[trigger] after[b]) by {
            if b < i {
            } else if b == i {
            } else if a < i {
                assert(after[b] == before[b - 1]);
                if b - 1 > i {
                    lemma_text_less_transitive(before[a], before[i as int], before[b - 1]);
                }
                if b - 1 >= i as int {
                    assert(text_less(before[a], item@));
                    if b - 1 == i {
                        lemma_text_less_transitive(before[a], item@, before[b - 1]);
                    } else {
                        lemma_text_less_transitive(item@, before[i as int], before[b - 1]);
                        lemma_text_less_transitive(before[a], item@, before[b - 1]);
                    }
                }
            } else if a == i {
                assert(after[b] == before[b - 1]);
                if b - 1 > i {
                    lemma_text_less_transitive(item@, before[i as int], before[b - 1]);
                }
            } else {
                assert(after[a] == before[a - 1]);
                assert(after[b] == before[b - 1]);
            }
        }
        assert forall|t: Seq<char>| #[trigger] after.to_set().contains(t) == before.to_set().insert(item@).contains(t) by {
            if t == item@ {
                assert(after[i as int] == item@);
            }
            if after.contains(t) {
                let k = choose|k: int| 0 <= k < after.len() && after[k] == t;
                if k < i {
                    assert(before[k] == t);
                } else if k > i {
                    assert(before[k - 1] == t);
                }
            }
            if before.contains(t) {
                let k = choose|k: int| 0 <= k < before.len() && before[k] == t;
                if k < i {
                    assert(after[k] == t);
                } else {
                    assert(after[k + 1] == t);
                }
            }
        }
        assert(after.to_set() =~= before.to_set().insert(item@));
    }
}

/// The registries a Docker `config.json` declares — the union of the keys
/// of its `auths` and `credHelpers` objects, sorted and without duplicates.
pub fn configured_registries(auths: &Vec<String>, cred_helpers: &Vec<String>) -> (registries: Vec<String>)
    ensures
        strictly_ascending(texts(registries@)),
        texts(registries@).to_set() == texts(auths@).to_set() + texts(cred_helpers@).to_set(),
{
    let mut registries: Vec<String> = Vec::new();
    let mut i: usize = 0;
    assert(texts(registries@).to_set() =~= Set::<Seq<char>>::empty());
    while i < auths.len()
        invariant
            i <= auths.len(),
            strictly_ascending(texts(registries@)),
            texts(registries@).to_set() == texts(auths@.take(i as int)).to_set(),
        decreases auths.len() - i,
    {
        insert_sorted(&mut registries, &auths[i]);
        assert(texts(auths@.take(i + 1)) =~= texts(auths@.take(i as int)).push(auths@[i as int]@));
        proof {
            texts(auths@.take(i as int)).lemma_push_to_set_commute(auths@[i as int]@);
        }
        i = i + 1;
    }
    assert(auths@.take(i as int) =~= auths@);
    let mut j: usize = 0;
    while j < cred_helpers.len()
        invariant
            j <= cred_helpers.len(),
            strictly_ascending(texts(registries@)),
            texts(registries@).to_set() == texts(auths@).to_set() + texts(cred_helpers@.take(j as int)).to_set(),
        decreases cred_helpers.len() - j,
    {
        insert_sorted(&mut registries, &cred_helpers[j]);
        assert(texts(cred_helpers@.take(j + 1)) =~= texts(cred_helpers@.take(j as int)).push(cred_helpers@[j as int]@));
        proof {
            texts(cred_helpers@.take(j as int)).lemma_push_to_set_commute(cred_helpers@[j as int]@);
        }
        assert(texts(registries@).to_set() =~= texts(auths@).to_set() + texts(cred_helpers@.take(j + 1)).to_set());
        j = j + 1;
    }
    assert(cred_helpers@.take(j as int) =~= cred_helpers@);
    registries
}

/// The message every conformant credential helper gives when it holds
/// nothing for a server.
pub open spec fn not_found_sentinel() -> Seq<char> {
    "credentials not found in native keychain"@
}

/// Whether a credential helper's failure output is really just "nothing is
/// stored for this server" rather than a genuine problem with the helper.
pub fn is_credentials_not_found(output: &str) -> (not_found: bool)
    ensures
        not_found == has_substring(output@, not_found_sentinel()),
{
    contains_text(output, "credentials not found in native keychain")
}

/// Where a credential lookup reads the Docker configuration from.
pub struct DockerCredentialHelperResolver {
    config_path: String,
}

impl DockerCredentialHelperResolver {
    /// The path of the `config.json` this resolver reads.
    pub closed spec fn config_path_spec(&self) -> Seq<char> {
        self.config_path@
    }

    /// `config_directory` is the directory `config.json` lives in (e.g.
    /// `~/.docker`) — not necessarily where it exists yet: a missing file
    /// resolves like an empty one.
    pub fn new(config_directory: &str) -> (resolver: Self)
        ensures
            resolver.config_path_spec() == joined_path(config_directory@, "config.json"@),
    {
        DockerCredentialHelperResolver { config_path: join_path(config_directory, "config.json") }
    }

    /// The path of the `config.json` this resolver reads.
    pub fn config_path(&self) -> (path: &str)
        ensures
            path@ == self.config_path_spec(),
    {
        self.config_path.as_str()
    }
}

/// What looking a registry's credential up through the Docker
/// configuration gave.
pub enum CredentialLookup {
    /// The configuration file could not be opened.
    NoConfigFile,
    /// A credential was found.
    Found,
    /// The configuration names nothing for the registry, or does not exist.
    NothingConfigured,
    /// The credential helper failed, saying this on its two streams.
    HelperFailed { stdout: String, stderr: String },
    /// Anything else went wrong.
    Failed,
}

/// What a lookup means for the pull that asked.
#[derive(Clone, Copy, Debug, PartialEq, Eq, Structural)]
pub enum CredentialVerdict {
    /// Use the credential found.
    UseCredential,
    /// Pull without credentials: none are configured for this registry.
    NothingConfigured,
    /// Report the failure.
    Fail,
}

/// What a lookup means: a credential found is used; a missing
/// configuration, a registry it names nothing for, and a helper failing
/// only to say it holds nothing for this server all mean nothing is
/// configured (with a global `credsStore`, the helper is asked for every
/// registry, mostly ones it knows nothing of); any other failure is
/// reported.
pub fn credential_verdict(lookup: &CredentialLookup) -> (verdict: CredentialVerdict)
    ensures
        verdict == match lookup {
            CredentialLookup::Found => CredentialVerdict::UseCredential,
            CredentialLookup::NoConfigFile | CredentialLookup::NothingConfigured => CredentialVerdict::NothingConfigured,
            CredentialLookup::HelperFailed { stdout, stderr } => if has_substring(stdout@, not_found_sentinel())
                || has_substring(stderr@, not_found_sentinel()) {
                CredentialVerdict::NothingConfigured
            } else {
                CredentialVerdict::Fail
            },
            CredentialLookup::Failed => CredentialVerdict::Fail,
        },
{
    match lookup {
        CredentialLookup::Found => CredentialVerdict::UseCredential,
        CredentialLookup::NoConfigFile => CredentialVerdict::NothingConfigured,
        CredentialLookup::NothingConfigured => CredentialVerdict::NothingConfigured,
        CredentialLookup::HelperFailed { stdout, stderr } => {
            if is_credentials_not_found(stdout.as_str()) || is_credentials_not_found(stderr.as_str()) {
                CredentialVerdict::NothingConfigured
            } else {
                CredentialVerdict::Fail
            }
        },
        CredentialLookup::Failed => CredentialVerdict::Fail,
    }
}

} // verus!
