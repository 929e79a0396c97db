//! Git includes (`type: git` entries in a configuration's `include`): a
//! `(remote, ref)` pair is cloned once into a local cache, under a key
//! derived from the pair, and reused forever. Each clone has a `<key>.toml`
//! sidecar recording when it was last used; entries unused for more than
//! thirty days are swept.
//!
//! This module holds the cache's decisions: the key, the names of an
//! entry's files, what the sidecar says after a use, which entries are old
//! enough to go and in what order they are listed, and how `git` is asked
//! to clone and check out a pair. Running `git` and touching the disk is
//! the caller's.

use vstd::prelude::*;

use crate::utf8::{lemma_utf8_injective, utf8, utf8_bytes};
use crate::text::{
    chars_of, digit_char, digit_of, join_path, joined_text, joined_path, less_than, str_eq, text_less,
};

verus! {

// ---------------------------------------------------------------------
// The cache key
// ---------------------------------------------------------------------

/// The `width` least significant bytes of `n`, least significant first.
pub open spec fn le_bytes_of(n: nat, width: nat) -> Seq<u8>
    decreases width,
{
    if width == 0 {
        Seq::empty()
    } else {
        seq![(n % 256) as u8] + le_bytes_of(n / 256, (width - 1) as nat)
    }
}

/// The width of a `usize`, in bytes.
pub open spec fn usize_width() -> nat {
    (usize::BITS / 8) as nat
}

/// Appends `usize::to_le_bytes(n)`.
fn push_usize_le(bytes: &mut Vec<u8>, n: usize)
    ensures
        final(bytes)@ == old(bytes)@ + le_bytes_of(n as nat, usize_width()),
{
    let width: u32 = usize::BITS / 8;
    let mut v: usize = n;
    let mut i: u32 = 0;
    while i < width
        invariant
            i <= width,
            width == usize::BITS / 8,
            old(bytes)@ + le_bytes_of(n as nat, width as nat) == bytes@ + le_bytes_of(v as nat, (width - i) as nat),
        decreases width - i,
    {
        let ghost before = bytes@;
        bytes.push((v % 256) as u8);
        assert(before + le_bytes_of(v as nat, (width - i) as nat) =~= bytes@ + le_bytes_of(
            (v / 256) as nat,
            (width - i - 1) as nat,
        ));
        v = v / 256;
        i = i + 1;
    }
    assert(bytes@ + le_bytes_of(v as nat, 0) =~= bytes@);
}

/// `sha2::Sha256`'s digest of `data`.
pub uninterp spec fn sha256_digest(data: Seq<u8>) -> Seq<u8>;

/// `sha2::Sha256::digest`: the SHA-256 digest of `data`, which is 32 bytes
/// long. The digest itself is named, not described.
#[verifier::external_body]
fn sha256(data: &[u8]) -> (digest: Vec<u8>)
    ensures
        digest@ == sha256_digest(data@),
        digest@.len() == 32,
{
    <sha2::Sha256 as sha2::Digest>::digest(data).to_vec()
}

/// Two byte strings framed so that where the first ends is never in doubt:
/// each is preceded by its length, as a `usize`'s little-endian bytes.
pub open spec fn framed(a: Seq<u8>, b: Seq<u8>) -> Seq<u8> {
    le_bytes_of(a.len(), usize_width()) + a + le_bytes_of(b.len(), usize_width()) + b
}

/// What the cache key of `(remote, git_ref)` is the digest of.
pub open spec fn key_input(remote: Seq<char>, git_ref: Seq<char>) -> Seq<u8> {
    framed(utf8(remote), utf8(git_ref))
}

/// `bytes` in lower-case hexadecimal, two digits a byte.
pub open spec fn lower_hex(bytes: Seq<u8>) -> Seq<char>
    decreases bytes.len(),
{
    if bytes.len() == 0 {
        Seq::empty()
    } else {
        lower_hex(bytes.drop_last()) + seq![digit_char(bytes.last() as int / 16), digit_char(bytes.last() as int % 16)]
    }
}

/// `256` to the power `w`.
pub open spec fn pow256(w: nat) -> nat
    decreases w,
{
    if w == 0 {
        1
    } else {
        256 * pow256((w - 1) as nat)
    }
}

/// `le_bytes_of(n, w)` holds exactly `w` bytes.
pub proof fn lemma_le_bytes_len(n: nat, w: nat)
    ensures
        le_bytes_of(n, w).len() == w,
    decreases w,
{
    if w > 0 {
        lemma_le_bytes_len(n / 256, (w - 1) as nat);
    }
}

/// Two numbers below `256^w` with the same `w` little-endian bytes are
/// equal.
pub proof fn lemma_le_bytes_injective(n: nat, m: nat, w: nat)
    requires
        n < pow256(w),
        m < pow256(w),
        le_bytes_of(n, w) == le_bytes_of(m, w),
    ensures
        n == m,
    decreases w,
{
    if w > 0 {
        let v = (w - 1) as nat;
        lemma_le_bytes_len(n / 256, v);
        lemma_le_bytes_len(m / 256, v);
        let a = le_bytes_of(n, w);
        let b = le_bytes_of(m, w);
        assert(a[0] == b[0]);
        assert((n % 256) as u8 == (m % 256) as u8);
        assert(n % 256 == m % 256);
        assert(le_bytes_of(n / 256, v) =~= a.subrange(1, w as int));
        assert(le_bytes_of(m / 256, v) =~= b.subrange(1, w as int));
        assert(n / 256 < pow256(v));
        assert(m / 256 < pow256(v));
        lemma_le_bytes_injective(n / 256, m / 256, v);
    } else {
        assert(pow256(0) == 1);
    }
}

/// Every `usize` is below `256` to the power of its width in bytes.
pub proof fn lemma_usize_below_pow256(n: usize)
    ensures
        n < pow256(usize_width()),
{
    reveal_with_fuel(pow256, 9);
    assert(usize::BITS == 32 || usize::BITS == 64);
    assert(pow256(4) == 0x1_0000_0000);
    assert(pow256(8) == 0x1_0000_0000_0000_0000);
}

/// Framing is unambiguous: two framed pairs of byte strings, each short
/// enough for its length to fit in a `usize`, are the same bytes only when
/// both pairs are the same. So no pair of fields split differently (say
/// `("repo.git @evil-ref", "main")` against `("repo.git", "evil-ref @main")`)
/// hashes the same input.
pub proof fn lemma_framing_is_unambiguous(a1: Seq<u8>, b1: Seq<u8>, a2: Seq<u8>, b2: Seq<u8>)
    requires
        a1.len() <= usize::MAX,
        b1.len() <= usize::MAX,
        a2.len() <= usize::MAX,
        b2.len() <= usize::MAX,
        framed(a1, b1) == framed(a2, b2),
    ensures
        a1 == a2,
        b1 == b2,
{
    let w = usize_width();
    let f = framed(a1, b1);
    lemma_le_bytes_len(a1.len(), w);
    lemma_le_bytes_len(a2.len(), w);
    lemma_le_bytes_len(b1.len(), w);
    lemma_le_bytes_len(b2.len(), w);
    lemma_usize_below_pow256(a1.len() as usize);
    lemma_usize_below_pow256(a2.len() as usize);
    lemma_usize_below_pow256(b1.len() as usize);
    lemma_usize_below_pow256(b2.len() as usize);
    assert(f.subrange(0, w as int) =~= le_bytes_of(a1.len(), w));
    assert(framed(a2, b2).subrange(0, w as int) =~= le_bytes_of(a2.len(), w));
    lemma_le_bytes_injective(a1.len(), a2.len(), w);
    let wi = w as int;
    let n = a1.len() as int;
    assert(f.subrange(wi, wi + n) =~= a1);
    assert(framed(a2, b2).subrange(wi, wi + n) =~= a2);
    assert(f.subrange(wi + n, wi + n + wi) =~= le_bytes_of(b1.len(), w));
    assert(framed(a2, b2).subrange(wi + n, wi + n + wi) =~= le_bytes_of(b2.len(), w));
    lemma_le_bytes_injective(b1.len(), b2.len(), w);
    assert(f.subrange(wi + n + wi, f.len() as int) =~= b1);
    assert(framed(a2, b2).subrange(wi + n + wi, f.len() as int) =~= b2);
}

/// Different `(remote, ref)` pairs never hash the same input, however their
/// characters fall: the framing keeps the fields apart and UTF-8 keeps the
/// characters apart. The keys then differ unless SHA-256 collides.
pub proof fn lemma_key_inputs_are_distinct(r1: Seq<char>, g1: Seq<char>, r2: Seq<char>, g2: Seq<char>)
    requires
        utf8(r1).len() <= usize::MAX,
        utf8(g1).len() <= usize::MAX,
        utf8(r2).len() <= usize::MAX,
        utf8(g2).len() <= usize::MAX,
        key_input(r1, g1) == key_input(r2, g2),
    ensures
        r1 == r2,
        g1 == g2,
{
    lemma_framing_is_unambiguous(utf8(r1), utf8(g1), utf8(r2), utf8(g2));
    lemma_utf8_injective(r1, r2);
    lemma_utf8_injective(g1, g2);
}

/// The cache key for a `(remote, ref)` pair: the lower-case hex SHA-256
/// digest of the two fields, each preceded by its length. Length-prefixing
/// keeps the two fields separable whatever characters they hold, so no
/// differently split pair hashes the same input (see
/// [`lemma_framing_is_unambiguous`]); the cache is shared by every project
/// on the machine, and a collision would hand one project another's clone.
pub fn cache_key(remote: &str, git_ref: &str) -> (key: String)
    ensures
        key@ == lower_hex(sha256_digest(key_input(remote@, git_ref@))),
        key@.len() == 64,
{
    let remote_bytes = utf8_bytes(remote);
    let ref_bytes = utf8_bytes(git_ref);
    let mut input: Vec<u8> = Vec::new();
    push_usize_le(&mut input, remote_bytes.len());
    let mut i: usize = 0;
    while i < remote_bytes.len()
        invariant
            i <= remote_bytes.len(),
            input@ == le_bytes_of(remote_bytes@.len(), usize_width()) + remote_bytes@.take(i as int),
        decreases remote_bytes.len() - i,
    {
        input.push(remote_bytes[i]);
        assert(remote_bytes@.take(i + 1) =~= remote_bytes@.take(i as int).push(remote_bytes@[i as int]));
        i = i + 1;
    }
    assert(remote_bytes@.take(i as int) =~= remote_bytes@);
    push_usize_le(&mut input, ref_bytes.len());
    let ghost head = input@;
    let mut j: usize = 0;
    while j < ref_bytes.len()
        invariant
            j <= ref_bytes.len(),
            input@ == head + ref_bytes@.take(j as int),
        decreases ref_bytes.len() - j,
    {
        input.push(ref_bytes[j]);
        assert(ref_bytes@.take(j + 1) =~= ref_bytes@.take(j as int).push(ref_bytes@[j as int]));
        j = j + 1;
    }
    assert(ref_bytes@.take(j as int) =~= ref_bytes@);
    assert(input@ =~= key_input(remote@, git_ref@));
    let digest = sha256(input.as_slice());
    let mut key = String::new();
    let mut k: usize = 0;
    while k < digest.len()
        invariant
            k <= digest.len(),
            key@ == lower_hex(digest@.take(k as int)),
        decreases digest.len() - k,
    {
        let b = digest[k];
        crate::text::push_char(&mut key, digit_of((b / 16) as u64));
        crate::text::push_char(&mut key, digit_of((b % 16) as u64));
        assert(digest@.take(k + 1).drop_last() =~= digest@.take(k as int));
        assert(key@ =~= lower_hex(digest@.take(k + 1)));
        k = k + 1;
    }
    assert(digest@.take(k as int) =~= digest@);
    proof {
        lemma_lower_hex_len(digest@);
    }
    key
}

/// Two hexadecimal digits a byte.
pub proof fn lemma_lower_hex_len(bytes: Seq<u8>)
    ensures
        lower_hex(bytes).len() == 2 * bytes.len(),
    decreases bytes.len(),
{
    if bytes.len() > 0 {
        lemma_lower_hex_len(bytes.drop_last());
    }
}

/// Different bytes are written with different digits: a hex string gives
/// back the bytes it was made from.
pub proof fn lemma_lower_hex_injective(a: Seq<u8>, b: Seq<u8>)
    requires
        lower_hex(a) == lower_hex(b),
    ensures
        a == b,
    decreases a.len(),
{
    lemma_lower_hex_len(a);
    lemma_lower_hex_len(b);
    if a.len() > 0 {
        let ha = lower_hex(a.drop_last());
        let hb = lower_hex(b.drop_last());
        lemma_lower_hex_len(a.drop_last());
        lemma_lower_hex_len(b.drop_last());
        let n = ha.len() as int;
        let x = a.last() as int;
        let y = b.last() as int;
        let ta = seq![digit_char(x / 16), digit_char(x % 16)];
        let tb = seq![digit_char(y / 16), digit_char(y % 16)];
        assert(lower_hex(a) == ha + ta);
        assert(lower_hex(b) == hb + tb);
        assert((ha + ta)[n] == ta[0]);
        assert((hb + tb)[n] == tb[0]);
        assert((ha + ta)[n + 1] == ta[1]);
        assert((hb + tb)[n + 1] == tb[1]);
        assert(lower_hex(a)[n] == lower_hex(b)[n]);
        assert(lower_hex(a)[n + 1] == lower_hex(b)[n + 1]);
        assert(lower_hex(a).take(n) =~= ha);
        assert(lower_hex(b).take(n) =~= hb);
        lemma_lower_hex_injective(a.drop_last(), b.drop_last());
        assert(digit_char(x / 16) == digit_char(y / 16));
        assert(digit_char(x % 16) == digit_char(y % 16));
        assert(x / 16 == y / 16);
        assert(x % 16 == y % 16);
        assert(x == y);
        assert(a =~= a.drop_last().push(a.last()));
        assert(b =~= b.drop_last().push(b.last()));
    } else {
        assert(a =~= b);
    }
}

/// Two different `(remote, ref)` pairs share a cache key only where their
/// two inputs, which then differ, have one SHA-256 digest: short of a
/// SHA-256 collision, the keys of different pairs differ.
pub proof fn lemma_distinct_pairs_get_distinct_keys(r1: Seq<char>, g1: Seq<char>, r2: Seq<char>, g2: Seq<char>)
    requires
        utf8(r1).len() <= usize::MAX,
        utf8(g1).len() <= usize::MAX,
        utf8(r2).len() <= usize::MAX,
        utf8(g2).len() <= usize::MAX,
        r1 != r2 || g1 != g2,
    ensures
        lower_hex(sha256_digest(key_input(r1, g1))) == lower_hex(sha256_digest(key_input(r2, g2))) ==> key_input(
            r1,
            g1,
        ) != key_input(r2, g2) && sha256_digest(key_input(r1, g1)) == sha256_digest(key_input(r2, g2)),
{
    if key_input(r1, g1) == key_input(r2, g2) {
        lemma_key_inputs_are_distinct(r1, g1, r2, g2);
    }
    if lower_hex(sha256_digest(key_input(r1, g1))) == lower_hex(sha256_digest(key_input(r2, g2))) {
        lemma_lower_hex_injective(sha256_digest(key_input(r1, g1)), sha256_digest(key_input(r2, g2)));
    }
}

// ---------------------------------------------------------------------
// Cloning
// ---------------------------------------------------------------------

/// Why cloning a Git include failed.
#[derive(Clone, Debug)]
pub enum GitIncludeError {
    /// The remote would be read by `git` as an option.
    RemoteStartsWithDash { remote: String },
    /// The reference would be read by `git` as an option.
    RefStartsWithDash { git_ref: String },
    /// `git clone` exited unsuccessfully, with `status` and `stderr`.
    CloneFailed { remote: String, status: String, stderr: String },
    /// `git checkout` exited unsuccessfully, with `status` and `stderr`.
    CheckoutFailed { git_ref: String, remote: String, status: String, stderr: String },
}

/// The text of a cloning failure.
pub open spec fn git_error_text(error: GitIncludeError) -> Seq<char> {
    match error {
        GitIncludeError::RemoteStartsWithDash { remote } => "Git include 'repo' must not start with '-': '"@ + remote@
            + "'"@,
        GitIncludeError::RefStartsWithDash { git_ref } => "Git include 'ref' must not start with '-': '"@ + git_ref@
            + "'"@,
        GitIncludeError::CloneFailed { remote, status, stderr } => "Could not clone repository '"@ + remote@
            + "': git exited with "@ + status@ + ": "@ + stderr@,
        GitIncludeError::CheckoutFailed { git_ref, remote, status, stderr } => "Could not check out reference '"@
            + git_ref@ + "' for repository '"@ + remote@ + "': git exited with "@ + status@ + ": "@ + stderr@,
    }
}

impl GitIncludeError {
    /// The failure as the reader sees it.
    pub fn message(&self) -> (text: String)
        ensures
            text@ == git_error_text(*self),
    {
        let mut s = String::new();
        match self {
            GitIncludeError::RemoteStartsWithDash { remote } => {
                s.append("Git include 'repo' must not start with '-': '");
                s.append(remote.as_str());
                s.append("'");
            },
            GitIncludeError::RefStartsWithDash { git_ref } => {
                s.append("Git include 'ref' must not start with '-': '");
                s.append(git_ref.as_str());
                s.append("'");
            },
            GitIncludeError::CloneFailed { remote, status, stderr } => {
                s.append("Could not clone repository '");
                s.append(remote.as_str());
                s.append("': git exited with ");
                s.append(status.as_str());
                s.append(": ");
                s.append(stderr.as_str());
            },
            GitIncludeError::CheckoutFailed { git_ref, remote, status, stderr } => {
                s.append("Could not check out reference '");
                s.append(git_ref.as_str());
                s.append("' for repository '");
                s.append(remote.as_str());
                s.append("': git exited with ");
                s.append(status.as_str());
                s.append(": ");
                s.append(stderr.as_str());
            },
        }
        s
    }
}

/// Whether `s` begins with `-`, which `git` would read as an option.
pub open spec fn starts_with_dash(s: Seq<char>) -> bool {
    s.len() > 0 && s[0] == '-'
}

/// Whether `s` begins with `-`.
fn begins_with_dash(s: &str) -> (dash: bool)
    ensures
        dash == starts_with_dash(s@),
{
    let chars = chars_of(s);
    chars.len() > 0 && chars[0] == '-'
}

/// One run of `git`: the transports it may use for remotes
/// (`GIT_ALLOW_PROTOCOL`) and its arguments.
pub struct GitCommand {
    pub allowed_protocols: String,
    pub args: Vec<String>,
}

/// The texts of a list of strings.
pub open spec fn views(items: Seq<String>) -> Seq<Seq<char>> {
    items.map_values(|s: String| s@)
}

/// Appends `item` to `args`.
fn push_arg(args: &mut Vec<String>, item: &str)
    ensures
        views(final(args)@) == views(old(args)@).push(item@),
{
    args.push(item.to_string());
    assert(views(final(args)@) =~= views(old(args)@).push(item@));
}

/// The real Git client: `git clone --no-checkout` into a sibling temporary
/// directory, `git checkout --recurse-submodules <ref>` there, then a
/// rename into place.
pub struct SystemGitClient;

impl SystemGitClient {
    /// Defense against argument smuggling: a `repo` or `ref` from a
    /// configuration file (possibly a Git-included bundle's) that starts
    /// with `-` would be read by `git` as an option. The remote is checked
    /// first.
    pub fn check_arguments(remote: &str, git_ref: &str) -> (checked: Result<(), GitIncludeError>)
        ensures
            checked is Ok <==> !starts_with_dash(remote@) && !starts_with_dash(git_ref@),
            starts_with_dash(remote@) ==> (checked matches Err(e) && e matches GitIncludeError::RemoteStartsWithDash {
                remote: r,
            } && r@ == remote@),
            !starts_with_dash(remote@) && starts_with_dash(git_ref@) ==> (checked matches Err(e)
                && e matches GitIncludeError::RefStartsWithDash { git_ref: g } && g@ == git_ref@),
    {
        if begins_with_dash(remote) {
            return Err(GitIncludeError::RemoteStartsWithDash { remote: remote.to_string() });
        }
        if begins_with_dash(git_ref) {
            return Err(GitIncludeError::RefStartsWithDash { git_ref: git_ref.to_string() });
        }
        Ok(())
    }

    /// The clone of `remote` into `temp_dir`, checking nothing out. `--`
    /// keeps `remote` positional; `file` stays among the transports, since a
    /// local-path `repo` is the caller's own value, but `ext` (which runs
    /// shell commands) does not.
    pub fn clone_command(remote: &str, temp_dir: &str) -> (command: GitCommand)
        ensures
            command.allowed_protocols@ == "file:git:http:https:ssh"@,
            views(command.args@) == seq!["clone"@, "--quiet"@, "--no-checkout"@, "--"@, remote@, temp_dir@],
    {
        let mut args: Vec<String> = Vec::new();
        push_arg(&mut args, "clone");
        push_arg(&mut args, "--quiet");
        push_arg(&mut args, "--no-checkout");
        push_arg(&mut args, "--");
        push_arg(&mut args, remote);
        push_arg(&mut args, temp_dir);
        GitCommand { allowed_protocols: "file:git:http:https:ssh".to_string(), args }
    }

    /// The checkout of `git_ref`, with its submodules, in `temp_dir`.
    /// `file` is not among the transports here: a submodule URL comes from
    /// the checked-out content, never from the caller's own configuration.
    /// There is no `--`, which would make `git_ref` a pathspec; the dash
    /// check protects it instead.
    pub fn checkout_command(temp_dir: &str, git_ref: &str) -> (command: GitCommand)
        ensures
            command.allowed_protocols@ == "git:http:https:ssh"@,
            views(command.args@) == seq![
                "-c"@,
                "advice.detachedHead=false"@,
                "-C"@,
                temp_dir@,
                "checkout"@,
                "--quiet"@,
                "--recurse-submodules"@,
                git_ref@,
            ],
    {
        let mut args: Vec<String> = Vec::new();
        push_arg(&mut args, "-c");
        push_arg(&mut args, "advice.detachedHead=false");
        push_arg(&mut args, "-C");
        push_arg(&mut args, temp_dir);
        push_arg(&mut args, "checkout");
        push_arg(&mut args, "--quiet");
        push_arg(&mut args, "--recurse-submodules");
        push_arg(&mut args, git_ref);
        GitCommand { allowed_protocols: "git:http:https:ssh".to_string(), args }
    }

    /// The temporary directory a clone into `parent/name` is made in: a
    /// sibling named `<name>.tmp`, renamed into place once checked out.
    pub fn temp_dir(parent: &str, name: &str) -> (dir: String)
        ensures
            dir@ == joined_path(parent@, name@ + ".tmp"@),
    {
        let file_name = joined_text(name, ".tmp");
        join_path(parent, file_name.as_str())
    }

    /// The failure of `git clone` of `remote`, which exited with `status`
    /// and wrote `stderr`.
    pub fn clone_failure(remote: &str, status: &str, stderr: &str) -> (e: GitIncludeError)
        ensures
            e matches GitIncludeError::CloneFailed { remote: r, status: s, stderr: t } && r@ == remote@ && s@
                == status@ && t@ == crate::text::trimmed(stderr@),
    {
        GitIncludeError::CloneFailed {
            remote: remote.to_string(),
            status: status.to_string(),
            stderr: crate::text::trim(stderr),
        }
    }

    /// The failure of `git checkout` of `git_ref` for `remote`, which exited
    /// with `status` and wrote `stderr`.
    pub fn checkout_failure(git_ref: &str, remote: &str, status: &str, stderr: &str) -> (e: GitIncludeError)
        ensures
            e matches GitIncludeError::CheckoutFailed { git_ref: g, remote: r, status: s, stderr: t } && g@
                == git_ref@ && r@ == remote@ && s@ == status@ && t@ == crate::text::trimmed(stderr@),
    {
        GitIncludeError::CheckoutFailed {
            git_ref: git_ref.to_string(),
            remote: remote.to_string(),
            status: status.to_string(),
            stderr: crate::text::trim(stderr),
        }
    }
}

/// No argument that passes the dash check reaches `git` as an option: in
/// the clone, every argument beginning with `-` comes before the `--` that
/// ends the options, and in the checkout only the fixed options do.
pub proof fn lemma_checked_arguments_stay_positional(
    remote: Seq<char>,
    git_ref: Seq<char>,
    temp_dir: Seq<char>,
    clone: Seq<Seq<char>>,
    checkout: Seq<Seq<char>>,
)
    requires
        !starts_with_dash(remote),
        !starts_with_dash(git_ref),
        !starts_with_dash(temp_dir),
        clone == seq!["clone"@, "--quiet"@, "--no-checkout"@, "--"@, remote, temp_dir],
        checkout == seq![
            "-c"@,
            "advice.detachedHead=false"@,
            "-C"@,
            temp_dir,
            "checkout"@,
            "--quiet"@,
            "--recurse-submodules"@,
            git_ref,
        ],
    ensures
        forall|i: int| 3 < i < clone.len() ==> !starts_with_dash(#[trigger] clone[i]),
        !starts_with_dash(checkout[7]),
        clone[3] == "--"@,
{
}

// ---------------------------------------------------------------------
// The cache's entries
// ---------------------------------------------------------------------

/// How long an entry may go unused before it is swept: thirty days, in
/// seconds.
pub const STALE_AFTER_SECONDS: u64 = 2592000;

/// The `<key>.toml` sidecar written alongside each cached clone. Its
/// `last_used` is a Unix timestamp in seconds, bumped on every use.
pub struct CacheInfo {
    pub kind: String,
    pub remote: String,
    pub git_ref: String,
    pub cloned_with_version: String,
    pub last_used: u64,
}

/// One entry in the cache: what `ratect includes list` reports, and what
/// `clean`/`refresh` return as having acted on.
pub struct CachedInclude {
    /// The hashed directory name under the cache root.
    pub key: String,
    pub remote: String,
    pub git_ref: String,
    /// Seconds since the Unix epoch: when a task last needed it.
    pub last_used: u64,
    /// The working copy's own directory.
    pub path: String,
    /// Bytes on disk, where measured; zero otherwise.
    pub size_bytes: u64,
}

/// The name of an entry's sidecar.
pub fn info_file_name(key: &str) -> (name: String)
    ensures
        name@ == key@ + ".toml"@,
{
    joined_text(key, ".toml")
}

/// The name of an entry's lock file, held while it is cloned or removed.
pub fn lock_file_name(key: &str) -> (name: String)
    ensures
        name@ == key@ + ".lock"@,
{
    joined_text(key, ".lock")
}

/// What one attempt to create an entry's lock file found.
#[derive(Clone, Copy, Debug, PartialEq, Eq, Structural)]
pub enum LockAttempt {
    /// The file was created: the lock is ours.
    Created,
    /// The file already exists: another process holds the lock.
    HeldElsewhere,
    /// Creating the file failed for another reason.
    Failed,
}

/// What to do after an attempt to take an entry's lock.
#[derive(Clone, Copy, Debug, PartialEq, Eq, Structural)]
pub enum LockStep {
    /// The lock is held; go on.
    Acquired,
    /// Wait [`LOCK_RETRY_MILLIS`] and try again.
    WaitAndRetry,
    /// Give up: the lock stayed held past the timeout.
    TimedOut,
    /// Give up: the lock file could not be created.
    Failed,
}

/// How long to wait between attempts to take a held lock, in milliseconds.
pub const LOCK_RETRY_MILLIS: u64 = 100;

/// The step after an attempt `elapsed_nanos` into waiting for a lock, with
/// `timeout_nanos` allowed: a held lock is waited for until more than the
/// timeout has passed, and never given up on before.
pub fn next_lock_step(attempt: LockAttempt, elapsed_nanos: u128, timeout_nanos: u128) -> (step: LockStep)
    ensures
        step == match attempt {
            LockAttempt::Created => LockStep::Acquired,
            LockAttempt::Failed => LockStep::Failed,
            LockAttempt::HeldElsewhere => if elapsed_nanos > timeout_nanos {
                LockStep::TimedOut
            } else {
                LockStep::WaitAndRetry
            },
        },
{
    match attempt {
        LockAttempt::Created => LockStep::Acquired,
        LockAttempt::Failed => LockStep::Failed,
        LockAttempt::HeldElsewhere => if elapsed_nanos > timeout_nanos {
            LockStep::TimedOut
        } else {
            LockStep::WaitAndRetry
        },
    }
}

/// The key a file of the cache root names, when it is a sidecar: a file
/// name of a non-empty stem and the extension `toml`.
pub open spec fn sidecar_stem(name: Seq<char>) -> Option<Seq<char>> {
    if name.len() > 5 && name.skip(name.len() - 5) == ".toml"@ {
        Some(name.take(name.len() - 5))
    } else {
        None
    }
}

/// The key the file `name` of the cache root is the sidecar of, if it is
/// one.
pub fn sidecar_key(name: &str) -> (key: Option<String>)
    ensures
        key is Some <==> sidecar_stem(name@) is Some,
        key matches Some(k) ==> k@ == sidecar_stem(name@).unwrap(),
{
    let chars = chars_of(name);
    let n = chars.len();
    if n <= 5 {
        return None;
    }
    let extension = crate::text::string_of_range(chars.as_slice(), n - 5, n);
    if !str_eq(extension.as_str(), ".toml") {
        return None;
    }
    Some(crate::text::string_of_range(chars.as_slice(), 0, n - 5))
}

impl CacheInfo {
    /// The sidecar of a first use of `remote` at `git_ref` by `version`.
    pub fn first_use(remote: &str, git_ref: &str, version: &str) -> (info: CacheInfo)
        ensures
            info.kind@ == "git"@,
            info.remote@ == remote@,
            info.git_ref@ == git_ref@,
            info.cloned_with_version@ == version@,
            info.last_used == 0,
    {
        CacheInfo {
            kind: "git".to_string(),
            remote: remote.to_string(),
            git_ref: git_ref.to_string(),
            cloned_with_version: version.to_string(),
            last_used: 0,
        }
    }

    /// The sidecar after a use at `now`: what `existing` recorded (a first
    /// use's where there is none yet), with only `last_used` bumped. A later
    /// version reusing an old clone does not overwrite the version it was
    /// cloned with.
    pub fn used(existing: Option<CacheInfo>, remote: &str, git_ref: &str, version: &str, now: u64) -> (info:
        CacheInfo)
        ensures
            info.last_used == now,
            existing matches Some(e) ==> (info.kind == e.kind && info.remote == e.remote && info.git_ref
                == e.git_ref && info.cloned_with_version == e.cloned_with_version),
            existing is None ==> (info.kind@ == "git"@ && info.remote@ == remote@ && info.git_ref@ == git_ref@
                && info.cloned_with_version@ == version@),
    {
        let mut info = match existing {
            Some(e) => e,
            None => CacheInfo::first_use(remote, git_ref, version),
        };
        info.last_used = now;
        info
    }
}

impl CachedInclude {
    /// The entry the sidecar file `name` of the cache `root` records as
    /// `info`, or `None` where `name` is no sidecar.
    pub fn from_sidecar(root: &str, name: &str, info: CacheInfo) -> (entry: Option<CachedInclude>)
        ensures
            entry is Some <==> sidecar_stem(name@) is Some,
            entry matches Some(e) ==> (e.key@ == sidecar_stem(name@).unwrap() && e.remote == info.remote
                && e.git_ref == info.git_ref && e.last_used == info.last_used && e.path@ == joined_path(
                root@,
                sidecar_stem(name@).unwrap(),
            ) && e.size_bytes == 0),
    {
        match sidecar_key(name) {
            None => None,
            Some(key) => {
                let path = join_path(root, key.as_str());
                Some(
                    CachedInclude {
                        key,
                        remote: info.remote,
                        git_ref: info.git_ref,
                        last_used: info.last_used,
                        path,
                        size_bytes: 0,
                    },
                )
            },
        }
    }
}

/// How long ago `last_used` was at `now`, never negative: a clock that went
/// backwards counts as no time at all.
pub open spec fn unused_for(now: u64, last_used: u64) -> int {
    if now >= last_used {
        now - last_used
    } else {
        0
    }
}

/// Whether an entry last used at `last_used` is removed at `now` by a clean
/// for `minimum_age` seconds: with no age, everything is; with one, what
/// has gone unused for longer than it.
pub fn is_old_enough(now: u64, last_used: u64, minimum_age: Option<u64>) -> (old_enough: bool)
    ensures
        old_enough == match minimum_age {
            Some(age) => unused_for(now, last_used) > age,
            None => true,
        },
{
    match minimum_age {
        Some(age) => now.saturating_sub(last_used) > age,
        None => true,
    }
}

/// Whether an entry last used at `last_used` is stale at `now`: unused for
/// more than thirty days.
pub fn is_stale(now: u64, last_used: u64) -> (stale: bool)
    ensures
        stale == (unused_for(now, last_used) > STALE_AFTER_SECONDS),
{
    now.saturating_sub(last_used) > STALE_AFTER_SECONDS
}

/// The keys of the entries among the first `n` stale at `now`, in order.
pub open spec fn stale_among(entries: Seq<CachedInclude>, now: u64, n: nat) -> Seq<Seq<char>>
    decreases n,
{
    if n == 0 {
        Seq::empty()
    } else {
        let before = stale_among(entries, now, (n - 1) as nat);
        if unused_for(now, entries[n - 1].last_used) > STALE_AFTER_SECONDS {
            before.push(entries[n - 1].key@)
        } else {
            before
        }
    }
}

/// The keys of the entries the staleness sweep removes at `now`, in the
/// order found.
pub fn stale_keys(entries: &Vec<CachedInclude>, now: u64) -> (keys: Vec<String>)
    ensures
        views(keys@) == stale_among(entries@, now, entries@.len()),
{
    let mut keys: Vec<String> = Vec::new();
    let mut i: usize = 0;
    while i < entries.len()
        invariant
            i <= entries.len(),
            views(keys@) == stale_among(entries@, now, i as nat),
        decreases entries.len() - i,
    {
        if is_stale(now, entries[i].last_used) {
            push_arg(&mut keys, entries[i].key.as_str());
        }
        i = i + 1;
    }
    keys
}

/// Whether `a` is listed before `b`: used longer ago, or, used in the same
/// second, with the smaller key.
pub open spec fn listed_before(a: CachedInclude, b: CachedInclude) -> bool {
    a.last_used < b.last_used || (a.last_used == b.last_used && text_less(a.key@, b.key@))
}

/// Whether `entries` are in listing order: oldest first, then by key.
pub open spec fn in_listing_order(entries: Seq<CachedInclude>) -> bool {
    forall|i: int, j: int| 0 <= i < j < entries.len() ==> !listed_before(#[trigger] entries[j], #[trigger] entries[i])
}

/// Whether `a` is listed before `b`.
fn is_listed_before(a: &CachedInclude, b: &CachedInclude) -> (before: bool)
    ensures
        before == listed_before(*a, *b),
{
    a.last_used < b.last_used || (a.last_used == b.last_used && less_than(a.key.as_str(), b.key.as_str()))
}

/// Listing before is transitive.
proof fn lemma_listed_before_transitive(a: CachedInclude, b: CachedInclude, c: CachedInclude)
    requires
        listed_before(a, b),
        listed_before(b, c),
    ensures
        listed_before(a, c),
{
    if a.last_used == b.last_used && b.last_used == c.last_used {
        crate::text::lemma_text_less_transitive(a.key@, b.key@, c.key@);
    }
}

/// The entries in listing order: the order someone clearing space wants to
/// read, stable between runs since the key breaks ties within a second.
pub fn sort_for_listing(entries: Vec<CachedInclude>) -> (sorted: Vec<CachedInclude>)
    ensures
        sorted@.to_multiset() == entries@.to_multiset(),
        in_listing_order(sorted@),
{
    broadcast use vstd::seq_lib::group_to_multiset_ensures;

    let ghost all = entries@;
    let mut sorted: Vec<CachedInclude> = Vec::new();
    for entry in it: entries.into_iter()
        invariant
            it.seq() == all,
            sorted@.to_multiset() == all.take(it.index() as int).to_multiset(),
            in_listing_order(sorted@),
    {
        let ghost k = it.index();
        assert(entry == all[k]);
        let mut pos: usize = 0;
        while pos < sorted.len() && !is_listed_before(&entry, &sorted[pos])
            invariant
                pos <= sorted.len(),
                forall|m: int| 0 <= m < pos ==> !listed_before(entry, #[trigger] sorted@[m]),
            decreases sorted.len() - pos,
        {
            pos = pos + 1;
        }
        let ghost before = sorted@;
        sorted.insert(pos, entry);
        proof {
            assert(sorted@ == before.insert(pos as int, entry));
            assert(all.take(k + 1) =~= all.take(k).push(entry));
            vstd::seq_lib::to_multiset_insert(before, pos as int, entry);
            vstd::seq_lib::to_multiset_build(all.take(k), entry);
            assert(sorted@.to_multiset() == all.take(k + 1).to_multiset());
            assert forall|i: int, j: int| 0 <= i < j < sorted@.len() implies !listed_before(
                #[trigger] sorted@[j],
                #[trigger] sorted@[i],
            ) by {
                if j < pos {
                } else if j == pos {
                } else if i < pos {
                    assert(sorted@[j] == before[j - 1]);
                    if listed_before(before[j - 1], before[i]) {
                        assert(false);
                    }
                } else if i == pos {
                    assert(sorted@[j] == before[j - 1]);
                    assert(listed_before(entry, before[pos as int]));
                    if listed_before(before[j - 1], entry) {
                        lemma_listed_before_transitive(before[j - 1], entry, before[pos as int]);
                        if j - 1 > pos {
                            assert(!listed_before(before[j - 1], before[pos as int]));
                        }
                        crate::text::lemma_text_less_irreflexive(before[pos as int].key@);
                    }
                } else {
                    assert(sorted@[i] == before[i - 1]);
                    assert(sorted@[j] == before[j - 1]);
                }
            }
        }
    }
    assert(all.take(all.len() as int) =~= all);
    sorted
}

} // verus!
