//! Batect-style expressions in configuration values: `$VAR`, `${VAR}` and
//! `${VAR:-default}` for host environment variables, `<name` and `<{name}`
//! for config variables. Literal text — including a `$`/`<` not followed by
//! a valid identifier, or an unterminated `${`/`<{` — passes through
//! unchanged.

use vstd::prelude::*;

use crate::text::{chars_of, index_of_char, lemma_index_of_char, push_char};
use crate::text_map::TextMap;

verus! {

/// Why an expression could not be resolved, with the variable it named.
pub enum ExprFailure {
    HostVariableNotSet(Seq<char>),
    ConfigVariableNotDeclared(Seq<char>),
    ConfigVariableHasNoValue(Seq<char>),
}

/// An expression whose variable cannot be resolved.
#[derive(Debug, Clone, PartialEq, Eq)]
pub enum ExpressionError {
    /// A `$VAR` whose host environment variable is not set, with no default.
    HostVariableNotSet { name: String },
    /// A `<name` naming no declared config variable.
    ConfigVariableNotDeclared { name: String },
    /// A `<name` naming a declared config variable that has no value.
    ConfigVariableHasNoValue { name: String },
}

impl View for ExpressionError {
    type V = ExprFailure;

    open spec fn view(&self) -> ExprFailure {
        match self {
            ExpressionError::HostVariableNotSet { name } => ExprFailure::HostVariableNotSet(name@),
            ExpressionError::ConfigVariableNotDeclared { name } => ExprFailure::ConfigVariableNotDeclared(name@),
            ExpressionError::ConfigVariableHasNoValue { name } => ExprFailure::ConfigVariableHasNoValue(name@),
        }
    }
}

impl ExpressionError {
    /// The error as it is reported.
    pub fn message(&self) -> (text: String)
        ensures
            text@ == match self {
                ExpressionError::HostVariableNotSet { name } => "Host environment variable '"@ + name@
                    + "' is not set, and no default was given (e.g. '${"@ + name@ + ":-default}')"@,
                ExpressionError::ConfigVariableNotDeclared { name } => "Config variable '"@ + name@
                    + "' is not declared in 'config_variables'"@,
                ExpressionError::ConfigVariableHasNoValue { name } => "Config variable '"@ + name@
                    + "' has no value: no --config-var/--config-vars-file override was given, and it has no 'default' in 'config_variables'"@,
            },
    {
        match self {
            ExpressionError::HostVariableNotSet { name } => {
                let mut text = "Host environment variable '".to_owned();
                text.append(name.as_str());
                text.append("' is not set, and no default was given (e.g. '${");
                text.append(name.as_str());
                text.append(":-default}')");
                text
            },
            ExpressionError::ConfigVariableNotDeclared { name } => {
                let mut text = "Config variable '".to_owned();
                text.append(name.as_str());
                text.append("' is not declared in 'config_variables'");
                text
            },
            ExpressionError::ConfigVariableHasNoValue { name } => {
                let mut text = "Config variable '".to_owned();
                text.append(name.as_str());
                text.append(
                    "' has no value: no --config-var/--config-vars-file override was given, and it has no 'default' in 'config_variables'",
                );
                text
            },
        }
    }
}

/// A character an identifier may start with.
pub open spec fn is_ident_start(c: char) -> bool {
    ('a' <= c && c <= 'z') || ('A' <= c && c <= 'Z') || c == '_'
}

/// A character an identifier may continue with. Config variable names
/// (sigil `<`) may hold `.`; host environment variable names never do.
pub open spec fn is_ident_char(c: char, sigil: char) -> bool {
    is_ident_start(c) || ('0' <= c && c <= '9') || (sigil == '<' && c == '.')
}

/// A well-formed variable name for `sigil`.
pub open spec fn is_valid_ident(name: Seq<char>, sigil: char) -> bool {
    &&& name.len() > 0
    &&& is_ident_start(name[0])
    &&& forall|k: int| 0 <= k < name.len() ==> is_ident_char(#[trigger] name[k], sigil)
}

/// Whether a `:-` starts at `k` in `s`.
pub open spec fn is_separator_at(s: Seq<char>, k: int) -> bool {
    0 <= k && k + 1 < s.len() && s[k] == ':' && s[k + 1] == '-'
}

/// The index of the first `:-` in `s`, or -1.
pub open spec fn index_of_default_separator(s: Seq<char>) -> int
    decreases s.len(),
{
    if s.len() < 2 {
        -1
    } else if s[0] == ':' && s[1] == '-' {
        0
    } else {
        let rest = index_of_default_separator(s.drop_first());
        if rest < 0 {
            -1
        } else {
            rest + 1
        }
    }
}

/// How many identifier characters `s` starts with.
pub open spec fn ident_run(s: Seq<char>, sigil: char) -> nat
    decreases s.len(),
{
    if s.len() == 0 || !is_ident_char(s[0], sigil) {
        0
    } else {
        1 + ident_run(s.drop_first(), sigil)
    }
}

/// What one variable resolves to: a host environment variable falls back to
/// its default; a config variable must be declared and have a value.
pub open spec fn resolve_spec(
    sigil: char,
    name: Seq<char>,
    default: Option<Seq<char>>,
    host_env: Map<Seq<char>, Seq<char>>,
    config_vars: Map<Seq<char>, Option<Seq<char>>>,
) -> Result<Seq<char>, ExprFailure> {
    if sigil == '$' {
        if host_env.contains_key(name) {
            Ok(host_env[name])
        } else {
            match default {
                Some(d) => Ok(d),
                None => Err(ExprFailure::HostVariableNotSet(name)),
            }
        }
    } else if !config_vars.contains_key(name) {
        Err(ExprFailure::ConfigVariableNotDeclared(name))
    } else {
        match config_vars[name] {
            Some(v) => Ok(v),
            None => Err(ExprFailure::ConfigVariableHasNoValue(name)),
        }
    }
}

/// What the text at the start of `s` (which starts with a sigil) is.
pub enum TokenOutcome {
    /// Not a complete, valid expression: the sigil is literal text.
    Literal,
    /// An expression `len` characters long, resolving to `value`.
    Resolved { len: int, value: Seq<char> },
    /// A well-formed expression whose variable cannot be resolved.
    Failed(ExprFailure),
}

pub open spec fn resolved_token(
    len: int,
    resolution: Result<Seq<char>, ExprFailure>,
) -> TokenOutcome {
    match resolution {
        Ok(value) => TokenOutcome::Resolved { len, value },
        Err(e) => TokenOutcome::Failed(e),
    }
}

/// The expression, if any, at the start of `s`, whose first character is
/// its sigil (`$` or `<`).
pub open spec fn token_spec(
    s: Seq<char>,
    host_env: Map<Seq<char>, Seq<char>>,
    config_vars: Map<Seq<char>, Option<Seq<char>>>,
) -> TokenOutcome {
    let sigil = s[0];
    if s.len() < 2 {
        TokenOutcome::Literal
    } else if s[1] == '{' {
        let rel = index_of_char(s.skip(2), '}');
        if rel < 0 {
            TokenOutcome::Literal
        } else {
            let close = rel + 2;
            let inner = s.subrange(2, close);
            let split = index_of_default_separator(inner);
            let name = if sigil == '$' && split >= 0 { inner.take(split) } else { inner };
            let default = if sigil == '$' && split >= 0 { Some(inner.skip(split + 2)) } else { None };
            if !is_valid_ident(name, sigil) {
                TokenOutcome::Literal
            } else {
                resolved_token(close + 1, resolve_spec(sigil, name, default, host_env, config_vars))
            }
        }
    } else if !is_ident_start(s[1]) {
        TokenOutcome::Literal
    } else {
        let end: int = (1 + ident_run(s.skip(1), sigil)) as int;
        resolved_token(end, resolve_spec(sigil, s.subrange(1, end), None, host_env, config_vars))
    }
}

/// `prefix` followed by what `rest` resolved to, or its failure.
pub open spec fn prepend(prefix: Seq<char>, rest: Result<Seq<char>, ExprFailure>) -> Result<Seq<char>, ExprFailure> {
    match rest {
        Ok(r) => Ok(prefix + r),
        Err(e) => Err(e),
    }
}

/// `s` with every expression substituted, scanning left to right: the
/// first expression that cannot be resolved fails the whole.
pub open spec fn interpolated(
    s: Seq<char>,
    host_env: Map<Seq<char>, Seq<char>>,
    config_vars: Map<Seq<char>, Option<Seq<char>>>,
) -> Result<Seq<char>, ExprFailure>
    decreases s.len(),
{
    if s.len() == 0 {
        Ok(Seq::empty())
    } else {
        let outcome = if s[0] == '$' || s[0] == '<' {
            token_spec(s, host_env, config_vars)
        } else {
            TokenOutcome::Literal
        };
        match outcome {
            TokenOutcome::Resolved { len, value } => if 0 < len <= s.len() {
                prepend(value, interpolated(s.skip(len), host_env, config_vars))
            } else {
                prepend(seq![s[0]], interpolated(s.skip(1), host_env, config_vars))
            },
            TokenOutcome::Failed(e) => Err(e),
            TokenOutcome::Literal => prepend(seq![s[0]], interpolated(s.skip(1), host_env, config_vars)),
        }
    }
}

proof fn lemma_prepend_prepend(a: Seq<char>, b: Seq<char>, rest: Result<Seq<char>, ExprFailure>)
    ensures
        prepend(a, prepend(b, rest)) == prepend(a + b, rest),
{
    if let Ok(r) = rest {
        assert(a + (b + r) =~= (a + b) + r);
    }
}

/// Literal text passes through unchanged: text holding no sigil (`$` or
/// `<`) interpolates to itself, whatever the variables hold.
pub proof fn lemma_text_without_sigils_is_unchanged(
    s: Seq<char>,
    host_env: Map<Seq<char>, Seq<char>>,
    config_vars: Map<Seq<char>, Option<Seq<char>>>,
)
    requires
        forall|k: int| 0 <= k < s.len() ==> #[trigger] s[k] != '$' && s[k] != '<',
    ensures
        interpolated(s, host_env, config_vars) == Ok::<Seq<char>, ExprFailure>(s),
    decreases s.len(),
{
    if s.len() > 0 {
        let rest = s.skip(1);
        assert forall|k: int| 0 <= k < rest.len() implies #[trigger] rest[k] != '$' && rest[k] != '<' by {
            assert(rest[k] == s[k + 1]);
        }
        lemma_text_without_sigils_is_unchanged(rest, host_env, config_vars);
        assert(s[0] != '$' && s[0] != '<');
        assert(interpolated(s, host_env, config_vars) == prepend(seq![s[0]], interpolated(rest, host_env, config_vars)));
        assert(seq![s[0]] + rest =~= s);
    } else {
        assert(s =~= Seq::<char>::empty());
    }
}

/// A name of ASCII letters, digits and underscores that does not start
/// with a digit names a host environment variable: `${name}` interpolates
/// to the variable's value wherever the variable is set.
pub proof fn lemma_braced_host_variable_resolves(
    name: Seq<char>,
    host_env: Map<Seq<char>, Seq<char>>,
    config_vars: Map<Seq<char>, Option<Seq<char>>>,
)
    requires
        name.len() > 0,
        ('a' <= name[0] && name[0] <= 'z') || ('A' <= name[0] && name[0] <= 'Z') || name[0] == '_',
        forall|k: int|
            0 <= k < name.len() ==> ('a' <= #[trigger] name[k] && name[k] <= 'z') || ('A' <= name[k] && name[k] <= 'Z')
                || ('0' <= name[k] && name[k] <= '9') || name[k] == '_',
        host_env.contains_key(name),
    ensures
        interpolated(seq!['$', '{'] + name + seq!['}'], host_env, config_vars) == Ok::<Seq<char>, ExprFailure>(
            host_env[name],
        ),
{
    let s = seq!['$', '{'] + name + seq!['}'];
    let n = name.len() as int;
    assert(s.skip(2) =~= name + seq!['}']);
    assert forall|k: int| 0 <= k < n implies (name + seq!['}'])[k] != '}' by {
        assert((name + seq!['}'])[k] == name[k]);
    }
    lemma_index_of_char(name + seq!['}'], '}', n);
    assert(s.subrange(2, n + 2) =~= name);
    assert forall|k: int| 0 <= k < n implies !#[trigger] is_separator_at(name, k) by {}
    lemma_index_of_default_separator(name, n);
    assert forall|k: int| 0 <= k < n implies is_ident_char(#[trigger] name[k], '$') by {}
    assert(is_valid_ident(name, '$'));
    assert(s[0] == '$' && s[1] == '{');
    assert(token_spec(s, host_env, config_vars) == TokenOutcome::Resolved { len: n + 3, value: host_env[name] });
    assert(s.skip(n + 3) =~= Seq::<char>::empty());
    assert(interpolated(s.skip(n + 3), host_env, config_vars) == Ok::<Seq<char>, ExprFailure>(Seq::empty()));
    assert(s.len() == n + 3 && s[0] == '$');
    assert(interpolated(s, host_env, config_vars) == prepend(
        host_env[name],
        interpolated(s.skip(n + 3), host_env, config_vars),
    ));
    assert(host_env[name] + Seq::<char>::empty() =~= host_env[name]);
}

/// A bare `$name`, its name of ASCII letters, digits and underscores and
/// not starting with a digit, interpolates to the variable's value wherever
/// the variable is set: the name runs on through its digits.
pub proof fn lemma_bare_host_variable_resolves(
    name: Seq<char>,
    host_env: Map<Seq<char>, Seq<char>>,
    config_vars: Map<Seq<char>, Option<Seq<char>>>,
)
    requires
        name.len() > 0,
        ('a' <= name[0] && name[0] <= 'z') || ('A' <= name[0] && name[0] <= 'Z') || name[0] == '_',
        forall|k: int|
            0 <= k < name.len() ==> ('a' <= #[trigger] name[k] && name[k] <= 'z') || ('A' <= name[k] && name[k] <= 'Z')
                || ('0' <= name[k] && name[k] <= '9') || name[k] == '_',
        host_env.contains_key(name),
    ensures
        interpolated(seq!['$'] + name, host_env, config_vars) == Ok::<Seq<char>, ExprFailure>(host_env[name]),
{
    let s = seq!['$'] + name;
    let n = name.len() as int;
    assert(s.skip(1) =~= name);
    assert(s[1] == name[0]);
    assert forall|k: int| 0 <= k < n implies is_ident_char(#[trigger] name[k], '$') by {}
    lemma_ident_run(name, '$', n);
    assert(s.subrange(1, n + 1) =~= name);
    assert(token_spec(s, host_env, config_vars) == TokenOutcome::Resolved { len: n + 1, value: host_env[name] });
    assert(s.skip(n + 1) =~= Seq::<char>::empty());
    assert(interpolated(s.skip(n + 1), host_env, config_vars) == Ok::<Seq<char>, ExprFailure>(Seq::empty()));
    assert(s.len() == n + 1 && s[0] == '$');
    assert(interpolated(s, host_env, config_vars) == prepend(
        host_env[name],
        interpolated(s.skip(n + 1), host_env, config_vars),
    ));
    assert(host_env[name] + Seq::<char>::empty() =~= host_env[name]);
}

/// A table of config variables with each value taken as its characters.
pub open spec fn config_view(vars: Map<Seq<char>, Option<String>>) -> Map<Seq<char>, Option<Seq<char>>> {
    vars.map_values(|o: Option<String>| match o {
        Some(v) => Some(v@),
        None => None,
    })
}

proof fn lemma_index_of_default_separator(s: Seq<char>, j: int)
    requires
        0 <= j <= s.len(),
        forall|k: int| 0 <= k < j ==> !#[trigger] is_separator_at(s, k),
        is_separator_at(s, j) || j + 1 >= s.len(),
    ensures
        index_of_default_separator(s) == if j + 1 < s.len() { j } else { -1 },
    decreases s.len(),
{
    if s.len() >= 2 && j > 0 {
        assert(!is_separator_at(s, 0));
        assert forall|k: int| 0 <= k < j - 1 implies !#[trigger] is_separator_at(s.drop_first(), k) by {
            assert(!is_separator_at(s, k + 1));
        }
        lemma_index_of_default_separator(s.drop_first(), j - 1);
    }
}

proof fn lemma_ident_run(s: Seq<char>, sigil: char, n: int)
    requires
        0 <= n <= s.len(),
        forall|k: int| 0 <= k < n ==> is_ident_char(#[trigger] s[k], sigil),
        n == s.len() || !is_ident_char(s[n], sigil),
    ensures
        ident_run(s, sigil) == n,
    decreases s.len(),
{
    if s.len() > 0 && n > 0 {
        assert forall|k: int| 0 <= k < n - 1 implies is_ident_char(#[trigger] s.drop_first()[k], sigil) by {
            assert(is_ident_char(s[k + 1], sigil));
        }
        lemma_ident_run(s.drop_first(), sigil, n - 1);
    }
}

fn is_ident_start_char(c: char) -> (b: bool)
    ensures
        b == is_ident_start(c),
{
    ('a' <= c && c <= 'z') || ('A' <= c && c <= 'Z') || c == '_'
}

fn is_ident_continue(c: char, sigil: char) -> (b: bool)
    ensures
        b == is_ident_char(c, sigil),
{
    is_ident_start_char(c) || ('0' <= c && c <= '9') || (sigil == '<' && c == '.')
}

/// Whether `chars[from..to]` is a valid identifier for `sigil`.
fn is_valid_ident_in(chars: &Vec<char>, from: usize, to: usize, sigil: char) -> (b: bool)
    requires
        from <= to <= chars.len(),
    ensures
        b == is_valid_ident(chars@.subrange(from as int, to as int), sigil),
{
    if from == to || !is_ident_start_char(chars[from]) {
        return false;
    }
    let mut k = from;
    while k < to
        invariant
            from <= k <= to <= chars.len(),
            forall|m: int| from <= m < k ==> is_ident_char(#[trigger] chars@[m], sigil),
        decreases to - k,
    {
        if !is_ident_continue(chars[k], sigil) {
            assert(chars@.subrange(from as int, to as int)[k - from] == chars@[k as int]);
            return false;
        }
        k = k + 1;
    }
    assert forall|m: int| 0 <= m < to - from implies is_ident_char(
        #[trigger] chars@.subrange(from as int, to as int)[m],
        sigil,
    ) by {
        assert(chars@.subrange(from as int, to as int)[m] == chars@[from + m]);
    }
    true
}

/// The characters `chars[from..to]` as a string.
fn string_in(chars: &Vec<char>, from: usize, to: usize) -> (s: String)
    requires
        from <= to <= chars.len(),
    ensures
        s@ == chars@.subrange(from as int, to as int),
{
    let mut s = String::new();
    let mut k = from;
    while k < to
        invariant
            from <= k <= to <= chars.len(),
            s@ == chars@.subrange(from as int, k as int),
        decreases to - k,
    {
        push_char(&mut s, chars[k]);
        assert(chars@.subrange(from as int, k + 1) == chars@.subrange(from as int, k as int).push(chars@[k as int]));
        k = k + 1;
    }
    s
}

fn resolve(
    sigil: char,
    name: String,
    default: Option<String>,
    host_env: &TextMap<String>,
    config_vars: &TextMap<Option<String>>,
) -> (r: Result<String, ExpressionError>)
    ensures
        match r {
            Ok(v) => resolve_spec(
                sigil,
                name@,
                match default {
                    Some(d) => Some(d@),
                    None => None,
                },
                host_env.text(),
                config_view(config_vars@),
            ) == Ok::<Seq<char>, ExprFailure>(v@),
            Err(e) => resolve_spec(
                sigil,
                name@,
                match default {
                    Some(d) => Some(d@),
                    None => None,
                },
                host_env.text(),
                config_view(config_vars@),
            ) == Err::<Seq<char>, ExprFailure>(e@),
        },
{
    if sigil == '$' {
        match host_env.get(name.as_str()) {
            Some(value) => Ok(value.clone()),
            None => match default {
                Some(default) => Ok(default),
                None => Err(ExpressionError::HostVariableNotSet { name }),
            },
        }
    } else {
        match config_vars.get(name.as_str()) {
            None => Err(ExpressionError::ConfigVariableNotDeclared { name }),
            Some(None) => Err(ExpressionError::ConfigVariableHasNoValue { name }),
            Some(Some(value)) => Ok(value.clone()),
        }
    }
}

/// The expression starting at `chars[start]`, whose sigil is `sigil`:
/// `None` when the sigil is literal text, otherwise how many characters the
/// expression spans and what it resolved to.
fn parse_token(
    chars: &Vec<char>,
    start: usize,
    sigil: char,
    host_env: &TextMap<String>,
    config_vars: &TextMap<Option<String>>,
) -> (r: Result<Option<(usize, String)>, ExpressionError>)
    requires
        start < chars.len(),
        chars@[start as int] == sigil,
    ensures
        match token_spec(chars@.skip(start as int), host_env.text(), config_view(config_vars@)) {
            TokenOutcome::Literal => r == Ok::<Option<(usize, String)>, ExpressionError>(None),
            TokenOutcome::Resolved { len, value } => r matches Ok(Some((n, v))) && n == len && v@ == value
                && 0 < len <= chars.len() - start,
            TokenOutcome::Failed(e) => r matches Err(err) && err@ == e,
        },
{
    let ghost s = chars@.skip(start as int);
    let ghost env = host_env.text();
    let ghost vars = config_view(config_vars@);
    let len = chars.len();
    if len - start < 2 {
        return Ok(None);
    }
    if chars[start + 1] == '{' {
        let mut close = start + 2;
        while close < len && chars[close] != '}'
            invariant
                start + 2 <= close <= len == chars.len(),
                forall|k: int| start + 2 <= k < close ==> chars@[k] != '}',
            decreases len - close,
        {
            close = close + 1;
        }
        proof {
            let tail = s.skip(2);
            assert forall|k: int| 0 <= k < close - start - 2 implies tail[k] != '}' by {
                assert(tail[k] == chars@[start + 2 + k]);
            }
            if close < len {
                assert(tail[close - start - 2] == chars@[close as int]);
            }
            lemma_index_of_char(tail, '}', close - start - 2);
        }
        if close == len {
            return Ok(None);
        }
        // The inner text is chars[start + 2 .. close].
        let inner_from = start + 2;
        let ghost inner = s.subrange(2, close - start);
        assert(inner =~= chars@.subrange(inner_from as int, close as int));
        let mut split = inner_from;
        let mut found = false;
        if sigil == '$' {
            while split + 1 < close && !(chars[split] == ':' && chars[split + 1] == '-')
                invariant
                    inner_from <= split <= close,
                    close < len == chars.len(),
                    inner == chars@.subrange(inner_from as int, close as int),
                    forall|r: int| 0 <= r < split - inner_from ==> !#[trigger] is_separator_at(inner, r),
                decreases close - split,
            {
                assert(inner[split - inner_from] == chars@[split as int]);
                assert(inner[split - inner_from + 1] == chars@[split + 1]);
                split = split + 1;
            }
            found = split + 1 < close;
            proof {
                let j = split - inner_from;
                if found {
                    assert(inner[j] == chars@[split as int]);
                    assert(inner[j + 1] == chars@[split + 1]);
                }
                lemma_index_of_default_separator(inner, j);
            }
        }
        let name_to = if found { split } else { close };
        if !is_valid_ident_in(chars, inner_from, name_to, sigil) {
            proof {
                if found {
                    assert(inner.take(split - inner_from) =~= chars@.subrange(inner_from as int, name_to as int));
                }
            }
            return Ok(None);
        }
        let name = string_in(chars, inner_from, name_to);
        let default = if found {
            Some(string_in(chars, split + 2, close))
        } else {
            None
        };
        proof {
            if found {
                assert(inner.take(split - inner_from) =~= chars@.subrange(inner_from as int, name_to as int));
                assert(inner.skip(split - inner_from + 2) =~= chars@.subrange(split + 2, close as int));
            }
        }
        let resolved = resolve(sigil, name, default, host_env, config_vars);
        match resolved {
            Ok(value) => Ok(Some((close - start + 1, value))),
            Err(e) => Err(e),
        }
    } else {
        if !is_ident_start_char(chars[start + 1]) {
            return Ok(None);
        }
        let mut end = start + 1;
        while end < len && is_ident_continue(chars[end], sigil)
            invariant
                start + 1 <= end <= len == chars.len(),
                forall|k: int| start + 1 <= k < end ==> is_ident_char(#[trigger] chars@[k], sigil),
            decreases len - end,
        {
            end = end + 1;
        }
        proof {
            let tail = s.skip(1);
            assert forall|k: int| 0 <= k < end - start - 1 implies is_ident_char(#[trigger] tail[k], sigil) by {
                assert(tail[k] == chars@[start + 1 + k]);
            }
            if end < len {
                assert(tail[end - start - 1] == chars@[end as int]);
            }
            lemma_ident_run(tail, sigil, end - start - 1);
            assert(s.subrange(1, end - start) =~= chars@.subrange(start + 1, end as int));
        }
        let name = string_in(chars, start + 1, end);
        let resolved = resolve(sigil, name, None, host_env, config_vars);
        match resolved {
            Ok(value) => Ok(Some((end - start, value))),
            Err(e) => Err(e),
        }
    }
}

/// Scans `input` for expressions and substitutes each with its value:
/// `host_env` holds the host environment variables, `config_vars` every
/// declared config variable with its value (`None` when it has neither an
/// override nor a default).
pub fn interpolate(
    input: &str,
    host_env: &TextMap<String>,
    config_vars: &TextMap<Option<String>>,
) -> (r: Result<String, ExpressionError>)
    ensures
        match interpolated(input@, host_env.text(), config_view(config_vars@)) {
            Ok(text) => r matches Ok(out) && out@ == text,
            Err(e) => r matches Err(err) && err@ == e,
        },
{
    let ghost env = host_env.text();
    let ghost vars = config_view(config_vars@);
    let chars = chars_of(input);
    let mut result = String::new();
    let mut i: usize = 0;
    assert(chars@.skip(0) =~= chars@);
    while i < chars.len()
        invariant
            i <= chars.len(),
            chars@ == input@,
            env == host_env.text(),
            vars == config_view(config_vars@),
            interpolated(chars@, env, vars) == prepend(result@, interpolated(chars@.skip(i as int), env, vars)),
        decreases chars.len() - i,
    {
        let c = chars[i];
        let ghost s = chars@.skip(i as int);
        if c == '$' || c == '<' {
            let token = parse_token(&chars, i, c, host_env, config_vars);
            match token {
                Err(e) => {
                    assert(s[0] == c);
                    assert(s.len() > 0);
                    assert(interpolated(s, env, vars) == Err::<Seq<char>, ExprFailure>(e@));
                    return Err(e);
                },
                Ok(Some((token_len, resolved))) => {
                    let ghost before = result@;
                    result.append(resolved.as_str());
                    proof {
                        assert(s[0] == c);
                        assert(s.skip(token_len as int) =~= chars@.skip(i + token_len));
                        assert(interpolated(s, env, vars) == prepend(
                            resolved@,
                            interpolated(chars@.skip(i + token_len), env, vars),
                        ));
                        lemma_prepend_prepend(before, resolved@, interpolated(chars@.skip(i + token_len), env, vars));
                    }
                    i = i + token_len;
                    continue ;
                },
                Ok(None) => {},
            }
        }
        let ghost before = result@;
        push_char(&mut result, c);
        proof {
            assert(s[0] == c);
            assert(s.skip(1) =~= chars@.skip(i + 1));
            assert(interpolated(s, env, vars) == prepend(seq![c], interpolated(chars@.skip(i + 1), env, vars)));
            lemma_prepend_prepend(before, seq![c], interpolated(chars@.skip(i + 1), env, vars));
            assert(before + seq![c] =~= before.push(c));
        }
        i = i + 1;
    }
    assert(chars@.skip(i as int) =~= Seq::<char>::empty());
    assert(result@ + Seq::<char>::empty() =~= result@);
    Ok(result)
}

} // verus!
