//! Proxy environment variable detection and propagation. Proxy URLs naming
//! `localhost`, `127.0.0.1` or `::1` are rewritten to `host.docker.internal`,
//! and a run whose URL was rewritten is told which `/etc/hosts` entry makes
//! that name resolve, and which host ports the rewritten URLs named.

use vstd::prelude::*;

use std::collections::BTreeSet;

use crate::text::{str_eq, text_less};
use crate::text_map::TextMap;

verus! {

broadcast use vstd::std_specs::btree::group_btree_axioms, vstd::laws_cmp::group_laws_cmp;

/// The extra `/etc/hosts` entry that makes a rewritten proxy URL resolve
/// from inside a container: a name mapped to an address.
#[derive(Clone, Copy, Debug, PartialEq, Eq)]
pub struct HostGateway {
    pub name: &'static str,
    pub address: &'static str,
}

impl HostGateway {
    /// The entry as Docker spells it — `name:address`.
    pub fn extra_host(&self) -> (entry: String)
        ensures
            entry@ == self.name@ + ":"@ + self.address@,
    {
        let mut entry = self.name.to_owned();
        entry.append(":");
        entry.append(self.address);
        entry
    }
}

/// The name a container reaches the Docker host through.
pub open spec fn docker_host_name_spec() -> Seq<char> {
    "host.docker.internal"@
}

/// Docker's own sentinel for "the machine running the daemon".
pub open spec fn host_gateway_address_spec() -> Seq<char> {
    "host-gateway"@
}

/// The hostname a container can reach the Docker host itself through —
/// always available, since the run adds a [`HostGateway`] where the daemon
/// does not provide the name itself.
pub fn docker_host_name() -> (name: Option<&'static str>)
    ensures
        name matches Some(n) && n@ == docker_host_name_spec(),
{
    Some("host.docker.internal")
}

/// What a URL is made of, as far as the proxy rewrite reads it: its scheme,
/// its host as written (an IPv6 literal in brackets), and its port or the
/// scheme's default.
pub struct UrlParts {
    pub scheme: String,
    pub host: Option<String>,
    pub port: Option<u16>,
}

/// The parts of `value` read as a URL, or `None` when it does not parse.
pub uninterp spec fn url_parts(value: Seq<char>) -> Option<(Seq<char>, Option<Seq<char>>, Option<u16>)>;

/// `value` read as a URL with its host replaced by `host`, serialized, or
/// `None` when `value` does not parse or `host` cannot be its host.
pub uninterp spec fn url_with_host(value: Seq<char>, host: Seq<char>) -> Option<Seq<char>>;

/// `url::Url::parse`, read through `scheme`, `host_str` and
/// `port_or_known_default`. Claims only that the result is the name
/// `url_parts` of the input, i.e. that parsing depends on the text alone.
#[verifier::external_body]
fn parse_url(value: &str) -> (parts: Option<UrlParts>)
    ensures
        match url_parts(value@) {
            None => parts is None,
            Some((scheme, host, port)) => parts matches Some(p) && p.scheme@ == scheme && p.port == port
                && match p.host {
                Some(h) => host == Some(h@),
                None => host is None,
            },
        },
{
    let url = url::Url::parse(value).ok()?;
    Some(UrlParts {
        scheme: url.scheme().to_string(),
        host: url.host_str().map(|h| h.to_string()),
        port: url.port_or_known_default(),
    })
}

/// `url::Url::set_host` on `value` parsed, serialized back with `to_string`.
/// Claims only that the result is the name `url_with_host` of the inputs.
#[verifier::external_body]
fn replace_url_host(value: &str, host: &str) -> (rewritten: Option<String>)
    ensures
        match url_with_host(value@, host@) {
            None => rewritten is None,
            Some(text) => rewritten matches Some(r) && r@ == text,
        },
{
    let mut url = url::Url::parse(value).ok()?;
    url.set_host(Some(host)).ok()?;
    Some(url.to_string())
}

/// Whether a URL's host names the local machine, in either spelling of the
/// IPv6 loopback address.
pub open spec fn refers_to_local_machine(host: Option<Seq<char>>) -> bool {
    host == Some("localhost"@) || host == Some("127.0.0.1"@) || host == Some("::1"@) || host == Some(
        "[::1]"@,
    )
}

/// What preprocessing one proxy variable's `value` gives: the value to
/// propagate, and the host port it named when — and only when — it was
/// rewritten to `docker_host`.
pub open spec fn preprocess_spec(value: Seq<char>, docker_host: Option<Seq<char>>) -> (Seq<char>, Option<u16>) {
    match docker_host {
        None => (value, None),
        Some(name) => match url_parts(value) {
            None => (value, None),
            Some((scheme, host, port)) => if scheme != "http"@ && scheme != "https"@ {
                (value, None)
            } else if !refers_to_local_machine(host) {
                (value, None)
            } else {
                match url_with_host(value, name) {
                    Some(rewritten) => (rewritten, port),
                    None => (value, None),
                }
            },
        },
    }
}

/// What preprocessing one proxy variable produced.
pub struct Preprocessed {
    pub value: String,
    pub rewritten_port: Option<u16>,
}

/// Rewrites `value` if it is an `http`/`https` URL whose host is the local
/// machine and a Docker host name is available; otherwise returns it
/// unchanged.
pub fn preprocess_proxy_value(value: &str, docker_host_name: Option<&str>) -> (p: Preprocessed)
    ensures
        (p.value@, p.rewritten_port) == preprocess_spec(
            value@,
            match docker_host_name {
                Some(n) => Some(n@),
                None => None,
            },
        ),
{
    let unchanged = Preprocessed { value: value.to_owned(), rewritten_port: None };
    let name = match docker_host_name {
        Some(name) => name,
        None => return unchanged,
    };
    let parts = match parse_url(value) {
        Some(parts) => parts,
        None => return unchanged,
    };
    if !str_eq(parts.scheme.as_str(), "http") && !str_eq(parts.scheme.as_str(), "https") {
        return unchanged;
    }
    let local = match &parts.host {
        Some(host) => str_eq(host.as_str(), "localhost") || str_eq(host.as_str(), "127.0.0.1") || str_eq(
            host.as_str(),
            "::1",
        ) || str_eq(host.as_str(), "[::1]"),
        None => false,
    };
    if !local {
        return unchanged;
    }
    match replace_url_host(value, name) {
        Some(rewritten) => Preprocessed { value: rewritten, rewritten_port: parts.port },
        None => unchanged,
    }
}

/// The value the host environment gives `name`: under `name` itself, then
/// its upper-case spelling, then its lower-case one (which, for these
/// lower-case names, is `name` again).
pub open spec fn either_case(env: Map<Seq<char>, Seq<char>>, name: Seq<char>, upper: Seq<char>) -> Option<
    Seq<char>,
> {
    if env.contains_key(name) {
        Some(env[name])
    } else if env.contains_key(upper) {
        Some(env[upper])
    } else {
        None
    }
}

/// Where one proxy variable stands after detection: its value (preprocessed
/// for the URL-bearing ones) and the port a rewrite named.
pub open spec fn detected(
    env: Map<Seq<char>, Seq<char>>,
    name: Seq<char>,
    upper: Seq<char>,
    preprocess: bool,
) -> Option<(Seq<char>, Option<u16>)> {
    match either_case(env, name, upper) {
        None => None,
        Some(v) => if preprocess {
            Some(preprocess_spec(v, Some(docker_host_name_spec())))
        } else {
            Some((v, None))
        },
    }
}

/// `vars` with a detected variable set under both of its spellings.
pub open spec fn with_detected(
    vars: Map<Seq<char>, Seq<char>>,
    name: Seq<char>,
    upper: Seq<char>,
    found: Option<(Seq<char>, Option<u16>)>,
) -> Map<Seq<char>, Seq<char>> {
    match found {
        Some((v, _)) => vars.insert(name, v).insert(upper, v),
        None => vars,
    }
}

/// `ports` with the port a detected variable's rewrite named.
pub open spec fn with_port(ports: Set<u16>, found: Option<(Seq<char>, Option<u16>)>) -> Set<u16> {
    match found {
        Some((_, Some(port))) => ports.insert(port),
        _ => ports,
    }
}

pub open spec fn found_http(env: Map<Seq<char>, Seq<char>>) -> Option<(Seq<char>, Option<u16>)> {
    detected(env, "http_proxy"@, "HTTP_PROXY"@, true)
}

pub open spec fn found_https(env: Map<Seq<char>, Seq<char>>) -> Option<(Seq<char>, Option<u16>)> {
    detected(env, "https_proxy"@, "HTTPS_PROXY"@, true)
}

pub open spec fn found_ftp(env: Map<Seq<char>, Seq<char>>) -> Option<(Seq<char>, Option<u16>)> {
    detected(env, "ftp_proxy"@, "FTP_PROXY"@, true)
}

pub open spec fn found_no_proxy(env: Map<Seq<char>, Seq<char>>) -> Option<(Seq<char>, Option<u16>)> {
    detected(env, "no_proxy"@, "NO_PROXY"@, false)
}

/// Every proxy variable the host environment sets, under both spellings.
pub open spec fn detected_variables(env: Map<Seq<char>, Seq<char>>) -> Map<Seq<char>, Seq<char>> {
    let m1 = with_detected(Map::empty(), "http_proxy"@, "HTTP_PROXY"@, found_http(env));
    let m2 = with_detected(m1, "https_proxy"@, "HTTPS_PROXY"@, found_https(env));
    let m3 = with_detected(m2, "ftp_proxy"@, "FTP_PROXY"@, found_ftp(env));
    with_detected(m3, "no_proxy"@, "NO_PROXY"@, found_no_proxy(env))
}

/// The host ports the rewritten proxy URLs named.
pub open spec fn rewritten_ports_spec(env: Map<Seq<char>, Seq<char>>) -> Set<u16> {
    with_port(with_port(with_port(Set::empty(), found_http(env)), found_https(env)), found_ftp(env))
}

/// Whether any proxy variable is set at all.
pub open spec fn any_detected(env: Map<Seq<char>, Seq<char>>) -> bool {
    found_http(env) is Some || found_https(env) is Some || found_ftp(env) is Some || found_no_proxy(env) is Some
}

/// `entries` joined with commas.
pub open spec fn comma_joined(entries: Seq<Seq<char>>) -> Seq<char>
    decreases entries.len(),
{
    if entries.len() == 0 {
        Seq::empty()
    } else if entries.len() == 1 {
        entries[0]
    } else {
        comma_joined(entries.drop_last()) + ","@ + entries.last()
    }
}

/// `key`'s value with `extra` appended after a comma, or `extra` alone when
/// it has no value or an empty one.
pub open spec fn appended(vars: Map<Seq<char>, Seq<char>>, key: Seq<char>, extra: Seq<char>) -> Seq<char> {
    if vars.contains_key(key) && vars[key].len() > 0 {
        vars[key] + ","@ + extra
    } else {
        extra
    }
}

/// The variables a run propagates: every proxy variable detected, and —
/// only when at least one was and there are extra entries — `no_proxy` and
/// `NO_PROXY` extended with the comma-joined `extra` entries.
pub open spec fn proxy_variables_spec(env: Map<Seq<char>, Seq<char>>, extra: Seq<Seq<char>>) -> Map<
    Seq<char>,
    Seq<char>,
> {
    let vars = detected_variables(env);
    if !any_detected(env) || extra.len() == 0 {
        vars
    } else {
        let joined = comma_joined(extra);
        vars.insert("no_proxy"@, appended(vars, "no_proxy"@, joined)).insert(
            "NO_PROXY"@,
            appended(vars, "NO_PROXY"@, joined),
        )
    }
}

/// `BTreeSet::iter`, collected: the set's elements in ascending order —
/// for `String`, lexicographic order of the characters.
#[verifier::external_body]
fn ascending(set: &BTreeSet<String>) -> (items: Vec<String>)
    ensures
        items@.to_set() == set@,
        forall|i: int, j: int| 0 <= i < j < items.len() ==> text_less(#[trigger] items@[i]@, #[trigger] items@[j]@),
{
    let mut items = Vec::new();
    for item in set.iter() {
        items.push(item.clone());
    }
    items
}

/// The proxy configuration one run propagates, and what else that
/// propagation obliges the run to do.
pub struct ProxyEnvironment {
    /// The variables to inject into a container's environment or a build's
    /// `build_args`.
    pub variables: TextMap<String>,
    /// The host ports of the proxy URLs that were rewritten. Empty when
    /// nothing was rewritten — which is the whole of the "does this run need
    /// a host gateway" question.
    pub rewritten_ports: BTreeSet<u16>,
}

impl ProxyEnvironment {
    /// The host ports of the rewritten URLs.
    pub open spec fn ports(&self) -> Set<u16> {
        self.rewritten_ports@
    }

    /// The `/etc/hosts` entry every container and build in this run needs
    /// so a rewritten URL resolves — `None` when no URL was rewritten.
    pub fn host_gateway(&self) -> (gateway: Option<HostGateway>)
        ensures
            self.ports().is_empty() ==> gateway is None,
            !self.ports().is_empty() ==> (gateway matches Some(g) && g.name@ == docker_host_name_spec()
                && g.address@ == host_gateway_address_spec()),
    {
        if self.rewritten_ports.is_empty() {
            assert(self.ports() =~= Set::<u16>::empty());
            return None;
        }
        let name = match docker_host_name() {
            Some(name) => name,
            None => return None,
        };
        Some(HostGateway { name, address: "host-gateway" })
    }

    /// The rewritten URLs' host ports.
    pub fn rewritten_ports(&self) -> (ports: &BTreeSet<u16>)
        ensures
            ports@ == self.ports(),
    {
        &self.rewritten_ports
    }
}

/// Looks one proxy variable up and records it under both spellings,
/// preprocessing its value when it is one of the URL-bearing ones.
fn detect(
    host_env: &TextMap<String>,
    name: &str,
    upper: &str,
    preprocess: bool,
    variables: &mut TextMap<String>,
    ports: &mut BTreeSet<u16>,
)
    ensures
        final(variables).text() == with_detected(
            old(variables).text(),
            name@,
            upper@,
            detected(host_env.text(), name@, upper@, preprocess),
        ),
        final(ports)@ == with_port(old(ports)@, detected(host_env.text(), name@, upper@, preprocess)),
{
    let value = match host_env.get(name) {
        Some(v) => v.clone(),
        None => match host_env.get(upper) {
            Some(v) => v.clone(),
            None => return,
        },
    };
    let value = if preprocess {
        let p = preprocess_proxy_value(value.as_str(), docker_host_name());
        match p.rewritten_port {
            Some(port) => {
                ports.insert(port);
            },
            None => {},
        }
        p.value
    } else {
        value
    };
    let copy = value.clone();
    variables.insert(name.to_owned(), value);
    variables.insert(upper.to_owned(), copy);
    assert(final(variables).text() =~= with_detected(
        old(variables).text(),
        name@,
        upper@,
        detected(host_env.text(), name@, upper@, preprocess),
    ));
}

/// Builds the proxy-related environment variables to inject into a
/// container's environment or a build's `build_args`: detects
/// `http_proxy`/`https_proxy`/`ftp_proxy`/`no_proxy` in the host
/// environment (either case), preprocesses the three URL-bearing ones, and
/// appends `extra_no_proxy_entries` (comma-joined, in ascending order) to
/// `no_proxy`/`NO_PROXY` — but only when at least one proxy variable was
/// found: with nothing proxied there is nothing to exempt.
pub fn proxy_environment_variables(
    host_env: &TextMap<String>,
    extra_no_proxy_entries: &BTreeSet<String>,
) -> (proxy: ProxyEnvironment)
    ensures
        proxy.ports() == rewritten_ports_spec(host_env.text()),
        exists|extra: Seq<String>|
            #![trigger extra.to_set()]
            {
                &&& extra.to_set() == extra_no_proxy_entries@
                &&& forall|i: int, j: int| 0 <= i < j < extra.len() ==> text_less(#[trigger] extra[i]@, #[trigger] extra[j]@)
                &&& proxy.variables.text() == proxy_variables_spec(
                    host_env.text(),
                    extra.map_values(|e: String| e@),
                )
            },
{
    let mut variables: TextMap<String> = TextMap::new();
    let mut ports: BTreeSet<u16> = BTreeSet::new();
    detect(host_env, "http_proxy", "HTTP_PROXY", true, &mut variables, &mut ports);
    detect(host_env, "https_proxy", "HTTPS_PROXY", true, &mut variables, &mut ports);
    detect(host_env, "ftp_proxy", "FTP_PROXY", true, &mut variables, &mut ports);
    detect(host_env, "no_proxy", "NO_PROXY", false, &mut variables, &mut ports);
    let ghost env = host_env.text();
    assert(ports@ =~= rewritten_ports_spec(env));
    let extra = ascending(extra_no_proxy_entries);
    let ghost extra_text = extra@.map_values(|e: String| e@);
    assert(variables.text() =~= detected_variables(env));
    proof {
        lemma_detected_variables_empty(env);
        assert(variables@.dom() =~= detected_variables(env).dom());
    }
    if variables.is_empty() || extra.len() == 0 {
        assert(proxy_variables_spec(env, extra_text) == detected_variables(env));
        return ProxyEnvironment { variables, rewritten_ports: ports };
    }
    let joined = join_with_commas(&extra);
    let ghost vars = variables.text();
    let no_proxy = appended_value(&variables, "no_proxy", &joined);
    let upper_no_proxy = appended_value(&variables, "NO_PROXY", &joined);
    assert(any_detected(env));
    assert(extra_text.len() > 0);
    let ghost np = no_proxy@;
    let ghost up = upper_no_proxy@;
    variables.insert("no_proxy".to_owned(), no_proxy);
    variables.insert("NO_PROXY".to_owned(), upper_no_proxy);
    assert(variables.text() =~= vars.insert("no_proxy"@, np).insert("NO_PROXY"@, up));
    assert(variables.text() =~= proxy_variables_spec(env, extra_text));
    ProxyEnvironment { variables, rewritten_ports: ports }
}

/// No variable was detected exactly when none of the four is set.
proof fn lemma_detected_variables_empty(env: Map<Seq<char>, Seq<char>>)
    ensures
        (detected_variables(env).dom() == Set::<Seq<char>>::empty()) == !any_detected(env),
{
    let vars = detected_variables(env);
    if !any_detected(env) {
        assert(vars.dom() =~= Set::<Seq<char>>::empty());
    } else {
        reveal_strlit("no_proxy");
        reveal_strlit("http_proxy");
        reveal_strlit("https_proxy");
        reveal_strlit("ftp_proxy");
        if found_no_proxy(env) is Some {
            assert(vars.contains_key("no_proxy"@));
        } else if found_ftp(env) is Some {
            assert("ftp_proxy"@[0] != "no_proxy"@[0]);
            assert(vars.contains_key("ftp_proxy"@));
        } else if found_https(env) is Some {
            assert("https_proxy"@[0] != "no_proxy"@[0]);
            assert("https_proxy"@[0] != "ftp_proxy"@[0]);
            assert(vars.contains_key("https_proxy"@));
        } else {
            assert("http_proxy"@[0] != "no_proxy"@[0]);
            assert("http_proxy"@[0] != "ftp_proxy"@[0]);
            assert("http_proxy"@[4] != "https_proxy"@[4]);
            assert(vars.contains_key("http_proxy"@));
        }
        assert(!(vars.dom() =~= Set::<Seq<char>>::empty()));
    }
}

/// `entries` joined with commas.
fn join_with_commas(entries: &Vec<String>) -> (joined: String)
    ensures
        joined@ == comma_joined(entries@.map_values(|e: String| e@)),
{
    let mut joined = String::new();
    let mut i: usize = 0;
    while i < entries.len()
        invariant
            i <= entries.len(),
            joined@ == comma_joined(entries@.map_values(|e: String| e@).take(i as int)),
        decreases entries.len() - i,
    {
        let ghost all = entries@.map_values(|e: String| e@);
        if i != 0 {
            joined.append(",");
        }
        joined.append(entries[i].as_str());
        proof {
            assert(all.take(i + 1).drop_last() =~= all.take(i as int));
            if i == 0 {
                assert(all.take(0) =~= Seq::<Seq<char>>::empty());
                assert(joined@ =~= all.take(1)[0]);
            }
        }
        i = i + 1;
    }
    assert(entries@.map_values(|e: String| e@).take(i as int) =~= entries@.map_values(|e: String| e@));
    joined
}

/// `key`'s value in `variables` followed by a comma and `extra`, or `extra`
/// alone when it has none or an empty one.
fn appended_value(variables: &TextMap<String>, key: &str, extra: &String) -> (value: String)
    ensures
        value@ == appended(variables.text(), key@, extra@),
{
    match variables.get(key) {
        Some(existing) => {
            if existing.as_str().is_empty() {
                extra.clone()
            } else {
                let mut value = existing.clone();
                value.append(",");
                value.append(extra.as_str());
                value
            }
        },
        None => extra.clone(),
    }
}

/// Whether `vars` sets `lower` exactly when it sets `upper`, to the same
/// value.
pub open spec fn spelled_alike(vars: Map<Seq<char>, Seq<char>>, lower: Seq<char>, upper: Seq<char>) -> bool {
    &&& vars.contains_key(lower) <==> vars.contains_key(upper)
    &&& vars.contains_key(lower) ==> vars[lower] == vars[upper]
}

/// The eight names, told apart by their first characters, or, for
/// `http_proxy` and `https_proxy`, their fifth.
proof fn lemma_names_differ()
    ensures
        "http_proxy"@[0] == 'h' && "http_proxy"@[4] == '_',
        "https_proxy"@[0] == 'h' && "https_proxy"@[4] == 's',
        "ftp_proxy"@[0] == 'f',
        "no_proxy"@[0] == 'n',
        "HTTP_PROXY"@[0] == 'H' && "HTTP_PROXY"@[4] == '_',
        "HTTPS_PROXY"@[0] == 'H' && "HTTPS_PROXY"@[4] == 'S',
        "FTP_PROXY"@[0] == 'F',
        "NO_PROXY"@[0] == 'N',
{
    reveal_strlit("http_proxy");
    reveal_strlit("HTTP_PROXY");
    reveal_strlit("https_proxy");
    reveal_strlit("HTTPS_PROXY");
    reveal_strlit("ftp_proxy");
    reveal_strlit("FTP_PROXY");
    reveal_strlit("no_proxy");
    reveal_strlit("NO_PROXY");
}

/// Every proxy variable is propagated under both of its spellings, with
/// one value: a container sees `http_proxy` and `HTTP_PROXY` alike, and
/// `no_proxy` and `NO_PROXY` alike after the extra entries are appended.
pub proof fn lemma_both_spellings_agree(env: Map<Seq<char>, Seq<char>>, extra: Seq<Seq<char>>)
    ensures
        spelled_alike(proxy_variables_spec(env, extra), "http_proxy"@, "HTTP_PROXY"@),
        spelled_alike(proxy_variables_spec(env, extra), "https_proxy"@, "HTTPS_PROXY"@),
        spelled_alike(proxy_variables_spec(env, extra), "ftp_proxy"@, "FTP_PROXY"@),
        spelled_alike(proxy_variables_spec(env, extra), "no_proxy"@, "NO_PROXY"@),
{
    lemma_names_differ();
    let vars = detected_variables(env);
    assert(spelled_alike(vars, "http_proxy"@, "HTTP_PROXY"@));
    assert(spelled_alike(vars, "https_proxy"@, "HTTPS_PROXY"@));
    assert(spelled_alike(vars, "ftp_proxy"@, "FTP_PROXY"@));
    assert(spelled_alike(vars, "no_proxy"@, "NO_PROXY"@));
}

/// With no proxy variable set, nothing is propagated, whatever extra
/// `no_proxy` entries were asked for, and no URL was rewritten: a run
/// without a proxy gets neither variables nor a host gateway.
pub proof fn lemma_nothing_proxied_propagates_nothing(env: Map<Seq<char>, Seq<char>>, extra: Seq<Seq<char>>)
    requires
        !any_detected(env),
    ensures
        proxy_variables_spec(env, extra) == Map::<Seq<char>, Seq<char>>::empty(),
        rewritten_ports_spec(env) == Set::<u16>::empty(),
{
    assert(detected_variables(env) =~= Map::<Seq<char>, Seq<char>>::empty());
    assert(rewritten_ports_spec(env) =~= Set::<u16>::empty());
}

/// Whether a detected variable's value was rewritten, naming `port`.
pub open spec fn rewrote(found: Option<(Seq<char>, Option<u16>)>, port: u16) -> bool {
    found matches Some((_, Some(p))) && p == port
}

/// A port is recorded only for a URL-bearing variable whose value was
/// actually rewritten: `no_proxy` never contributes one.
pub proof fn lemma_rewritten_ports_come_from_rewrites(env: Map<Seq<char>, Seq<char>>, port: u16)
    requires
        rewritten_ports_spec(env).contains(port),
    ensures
        rewrote(found_http(env), port) || rewrote(found_https(env), port) || rewrote(found_ftp(env), port),
{
}

/// Each of the three URL-bearing variables, set in either spelling to an
/// `http` or `https` URL whose host is the local machine, is propagated
/// under both spellings with its host replaced by the Docker host's name,
/// and the port it names is among the rewritten ports: `ftp_proxy` no less
/// than `http_proxy` and `https_proxy`.
pub proof fn lemma_local_proxy_urls_are_rewritten(
    env: Map<Seq<char>, Seq<char>>,
    extra: Seq<Seq<char>>,
    lower: Seq<char>,
    upper: Seq<char>,
    value: Seq<char>,
    scheme: Seq<char>,
    host: Seq<char>,
    port: u16,
    rewritten: Seq<char>,
)
    requires
        (lower == "http_proxy"@ && upper == "HTTP_PROXY"@) || (lower == "https_proxy"@ && upper == "HTTPS_PROXY"@) || (
        lower == "ftp_proxy"@ && upper == "FTP_PROXY"@),
        (env.contains_key(lower) && env[lower] == value) || (!env.contains_key(lower) && env.contains_key(upper)
            && env[upper] == value),
        url_parts(value) == Some((scheme, Some(host), Some(port))),
        scheme == "http"@ || scheme == "https"@,
        host == "localhost"@ || host == "127.0.0.1"@ || host == "::1"@ || host == "[::1]"@,
        url_with_host(value, "host.docker.internal"@) == Some(rewritten),
    ensures
        proxy_variables_spec(env, extra).contains_key(lower),
        proxy_variables_spec(env, extra)[lower] == rewritten,
        proxy_variables_spec(env, extra).contains_key(upper),
        proxy_variables_spec(env, extra)[upper] == rewritten,
        rewritten_ports_spec(env).contains(port),
{
    lemma_names_differ();
    let found = Some((rewritten, Some(port)));
    assert(preprocess_spec(value, Some(docker_host_name_spec())) == (rewritten, Some(port)));
    let m1 = with_detected(Map::empty(), "http_proxy"@, "HTTP_PROXY"@, found_http(env));
    let m2 = with_detected(m1, "https_proxy"@, "HTTPS_PROXY"@, found_https(env));
    let m3 = with_detected(m2, "ftp_proxy"@, "FTP_PROXY"@, found_ftp(env));
    let vars = detected_variables(env);
    let p1 = with_port(Set::empty(), found_http(env));
    let p2 = with_port(p1, found_https(env));
    if lower == "http_proxy"@ {
        assert(found_http(env) == found);
        assert(m1.contains_key(lower) && m1[lower] == rewritten && m1.contains_key(upper) && m1[upper] == rewritten);
        assert(m2.contains_key(lower) && m2[lower] == rewritten && m2.contains_key(upper) && m2[upper] == rewritten);
        assert(m3.contains_key(lower) && m3[lower] == rewritten && m3.contains_key(upper) && m3[upper] == rewritten);
        assert(p1.contains(port));
    } else if lower == "https_proxy"@ {
        assert(found_https(env) == found);
        assert(m2.contains_key(lower) && m2[lower] == rewritten && m2.contains_key(upper) && m2[upper] == rewritten);
        assert(m3.contains_key(lower) && m3[lower] == rewritten && m3.contains_key(upper) && m3[upper] == rewritten);
        assert(p2.contains(port));
    } else {
        assert(found_ftp(env) == found);
        assert(m3.contains_key(lower) && m3[lower] == rewritten && m3.contains_key(upper) && m3[upper] == rewritten);
    }
    assert(vars.contains_key(lower) && vars[lower] == rewritten && vars.contains_key(upper) && vars[upper] == rewritten);
}

} // verus!
