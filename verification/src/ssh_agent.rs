//! A minimal ssh-agent, serving a fixed set of private keys read from
//! files. Private keys never leave the process: only signatures cross the
//! socket.
//!
//! Two request types get real answers, `SSH_AGENTC_REQUEST_IDENTITIES` and
//! `SSH_AGENTC_SIGN_REQUEST`; everything else answers `SSH_AGENT_FAILURE`,
//! which is all an SSH client performing public-key authentication needs.
//! Wire formats and constants are those of RFC 9987, the SSH agent
//! protocol.
//!
//! This module holds the protocol: reading and answering requests, the
//! message framing, which keys may be served and which signature an RSA key
//! makes. The socket, its private directory and the accept loop are the
//! caller's.

use vstd::prelude::*;

use crate::text::{decimal, to_decimal};
use crate::utf8::{utf8, utf8_bytes};

verus! {

/// Generic failure response: the answer to every request this agent does
/// not implement or cannot satisfy (RFC 9987 §5.1).
pub const SSH_AGENT_FAILURE: u8 = 5;
/// "List the keys you hold" (RFC 9987 §5.2).
pub const SSH_AGENTC_REQUEST_IDENTITIES: u8 = 11;
/// The answer to a request for identities (RFC 9987 §5.2).
pub const SSH_AGENT_IDENTITIES_ANSWER: u8 = 12;
/// "Sign this data with the key having this public blob" (RFC 9987 §5.3).
pub const SSH_AGENTC_SIGN_REQUEST: u8 = 13;
/// The answer to a sign request (RFC 9987 §5.3).
pub const SSH_AGENT_SIGN_RESPONSE: u8 = 14;
/// Sign an RSA key's data under `rsa-sha2-256` (RFC 9987 §5.3).
pub const SSH_AGENT_RSA_SHA2_256: u32 = 2;
/// Sign an RSA key's data under `rsa-sha2-512` (RFC 9987 §5.3).
pub const SSH_AGENT_RSA_SHA2_512: u32 = 4;
/// The largest request this agent reads, OpenSSH's own limit: without a
/// ceiling, a four-byte length prefix would let a client claim 4 GiB.
pub const MAX_MESSAGE_LENGTH: usize = 262144;
/// The socket's file name inside the agent's own private directory.
pub const SOCKET_FILE_NAME: &'static str = "agent";
/// Prefixes each agent's own directory, so a stray one is attributable.
pub const DIRECTORY_NAME_PREFIX: &'static str = "ratect-ssh-";
/// A conservative ceiling on the socket path's length, in bytes: a Unix
/// socket address is a fixed `sun_path` buffer, 104 bytes on macOS.
pub const MAX_SOCKET_PATH_LENGTH: usize = 100;

// ---------------------------------------------------------------------
// Wire primitives
// ---------------------------------------------------------------------

/// `n` as a big-endian `uint32`.
pub open spec fn be32(n: nat) -> Seq<u8> {
    seq![((n / 16777216) % 256) as u8, ((n / 65536) % 256) as u8, ((n / 256) % 256) as u8, (n % 256) as u8]
}

/// The big-endian `uint32` four bytes spell.
pub open spec fn be32_value(b: Seq<u8>) -> nat {
    (b[0] * 16777216 + b[1] * 65536 + b[2] * 256 + b[3]) as nat
}

/// An RFC 9987 `string`: its length as a `uint32`, then its bytes.
pub open spec fn string_field(bytes: Seq<u8>) -> Seq<u8> {
    be32(bytes.len()) + bytes
}

/// Appends `n` as a big-endian `uint32`.
fn push_be32(out: &mut Vec<u8>, n: u32)
    ensures
        final(out)@ == old(out)@ + be32(n as nat),
{
    out.push(((n / 16777216) % 256) as u8);
    out.push(((n / 65536) % 256) as u8);
    out.push(((n / 256) % 256) as u8);
    out.push((n % 256) as u8);
    assert(final(out)@ =~= old(out)@ + be32(n as nat));
}

/// Appends `bytes` to `out`.
fn push_all(out: &mut Vec<u8>, bytes: &[u8])
    ensures
        final(out)@ == old(out)@ + bytes@,
{
    let mut i: usize = 0;
    while i < bytes.len()
        invariant
            i <= bytes.len(),
            out@ == old(out)@ + bytes@.take(i as int),
        decreases bytes.len() - i,
    {
        out.push(bytes[i]);
        assert(bytes@.take(i + 1) =~= bytes@.take(i as int).push(bytes@[i as int]));
        i = i + 1;
    }
    assert(bytes@.take(i as int) =~= bytes@);
}

/// Appends `bytes` as an RFC 9987 `string`.
pub fn write_string(out: &mut Vec<u8>, bytes: &[u8])
    requires
        bytes@.len() <= u32::MAX,
    ensures
        final(out)@ == old(out)@ + string_field(bytes@),
{
    push_be32(out, bytes.len() as u32);
    push_all(out, bytes);
    assert(final(out)@ =~= old(out)@ + string_field(bytes@));
}

/// The big-endian `uint32` of `n`'s four bytes reads back as `n`.
pub proof fn lemma_be32_round_trip(n: nat)
    requires
        n <= u32::MAX,
    ensures
        be32(n).len() == 4,
        be32_value(be32(n)) == n,
{
    let b = be32(n);
    assert(b[0] == (n / 16777216) % 256);
    assert(b[1] == (n / 65536) % 256);
    assert(b[2] == (n / 256) % 256);
    assert(b[3] == n % 256);
}

/// A bounds-checked reader of the primitives RFC 9987 messages are built
/// from: `byte`, `uint32` (big-endian) and `string`. Every read yields
/// `None` on a truncated message, so no request can make the agent panic.
pub struct Reader<'a> {
    bytes: &'a [u8],
    offset: usize,
}

impl<'a> Reader<'a> {
    #[verifier::type_invariant]
    closed spec fn inv(self) -> bool {
        self.offset <= self.bytes@.len()
    }

    /// The bytes not yet read.
    pub closed spec fn rest(&self) -> Seq<u8> {
        self.bytes@.skip(self.offset as int)
    }

    /// A reader at the start of `bytes`.
    pub fn new(bytes: &'a [u8]) -> (reader: Self)
        ensures
            reader.rest() == bytes@,
    {
        let reader = Reader { bytes, offset: 0 };
        assert(reader.rest() =~= bytes@);
        reader
    }

    /// The next `count` bytes, or `None` (reading nothing) when fewer are
    /// left.
    pub fn take(&mut self, count: usize) -> (taken: Option<&'a [u8]>)
        ensures
            taken is Some <==> count <= old(self).rest().len(),
            taken matches Some(s) ==> s@ == old(self).rest().take(count as int) && final(self).rest()
                == old(self).rest().skip(count as int),
            taken is None ==> final(self).rest() == old(self).rest(),
    {
        proof {
            use_type_invariant(&*self);
        }
        if count > self.bytes.len() - self.offset {
            return None;
        }
        let end = self.offset + count;
        let slice = &self.bytes[self.offset..end];
        let ghost before = self.rest();
        self.offset = end;
        assert(slice@ =~= before.take(count as int));
        assert(self.rest() =~= before.skip(count as int));
        Some(slice)
    }

    /// The next `byte`.
    pub fn u8(&mut self) -> (byte: Option<u8>)
        ensures
            byte is Some <==> old(self).rest().len() >= 1,
            byte matches Some(b) ==> b == old(self).rest()[0] && final(self).rest() == old(self).rest().skip(1),
            byte is None ==> final(self).rest() == old(self).rest(),
    {
        match self.take(1) {
            Some(bytes) => Some(bytes[0]),
            None => None,
        }
    }

    /// The next `uint32`.
    pub fn u32(&mut self) -> (n: Option<u32>)
        ensures
            n is Some <==> old(self).rest().len() >= 4,
            n matches Some(v) ==> v == be32_value(old(self).rest().take(4)) && final(self).rest() == old(
                self,
            ).rest().skip(4),
            n is None ==> final(self).rest() == old(self).rest(),
    {
        match self.take(4) {
            Some(b) => {
                let v = (b[0] as u32) * 16777216 + (b[1] as u32) * 65536 + (b[2] as u32) * 256 + (b[3] as u32);
                Some(v)
            },
            None => None,
        }
    }

    /// The next `string`: a `uint32` length, then that many bytes. Where
    /// the length is read but its bytes are not all there, `None`, with the
    /// length consumed.
    pub fn string(&mut self) -> (s: Option<&'a [u8]>)
        ensures
            s is Some <==> read_string(old(self).rest()) is Some,
            s matches Some(b) ==> b@ == read_string(old(self).rest()).unwrap().0 && final(self).rest() == read_string(
                old(self).rest(),
            ).unwrap().1,
    {
        let length = self.u32();
        match length {
            None => None,
            Some(n) => self.take(n as usize),
        }
    }
}

/// The `string` at the start of `bytes`, and what follows it.
pub open spec fn read_string(bytes: Seq<u8>) -> Option<(Seq<u8>, Seq<u8>)> {
    if bytes.len() < 4 {
        None
    } else {
        let n = be32_value(bytes.take(4));
        let rest = bytes.skip(4);
        if n <= rest.len() {
            Some((rest.take(n as int), rest.skip(n as int)))
        } else {
            None
        }
    }
}

/// What `write_string` writes, `read_string` reads back, with whatever
/// followed it untouched.
pub proof fn lemma_string_round_trip(bytes: Seq<u8>, after: Seq<u8>)
    requires
        bytes.len() <= u32::MAX,
    ensures
        read_string(string_field(bytes) + after) == Some((bytes, after)),
{
    lemma_be32_round_trip(bytes.len());
    let all = string_field(bytes) + after;
    assert(all.take(4) =~= be32(bytes.len()));
    assert(all.skip(4) =~= bytes + after);
    assert((bytes + after).take(bytes.len() as int) =~= bytes);
    assert((bytes + after).skip(bytes.len() as int) =~= after);
}

// ---------------------------------------------------------------------
// Keys
// ---------------------------------------------------------------------

/// The kind of a private key, as far as signing is concerned.
#[derive(Clone, Copy, Debug, PartialEq, Eq, Structural)]
pub enum KeyKind {
    Ed25519,
    Rsa,
    Ecdsa,
    /// An algorithm this agent cannot sign with.
    Other,
}

/// What loading a key reads of it.
pub struct KeyFacts {
    pub encrypted: bool,
    pub kind: KeyKind,
    /// The algorithm's name, as `ssh-key` writes it.
    pub algorithm: String,
    /// The public key's wire encoding, or why it could not be made.
    pub public_blob: Result<Vec<u8>, String>,
    pub comment: String,
}

/// What loading reads of a key, as plain values: whether it is encrypted,
/// its kind, its algorithm's name, its public blob (or why that could not
/// be encoded), and its comment.
pub type KeyRead = (bool, KeyKind, Seq<char>, Result<Seq<u8>, Seq<char>>, Seq<char>);

/// The facts as plain values.
pub open spec fn read_view(facts: KeyFacts) -> KeyRead {
    (
        facts.encrypted,
        facts.kind,
        facts.algorithm@,
        match facts.public_blob {
            Ok(b) => Ok(b@),
            Err(c) => Err(c@),
        },
        facts.comment@,
    )
}

/// What `ssh-key` reads of the OpenSSH private key text `pem`, or its
/// account of why `pem` does not parse.
pub uninterp spec fn openssh_read(pem: Seq<char>) -> Result<KeyRead, Seq<char>>;

/// `ssh_key::PrivateKey::from_openssh` of `pem`, then what loading reads of
/// the key: `is_encrypted`, which `KeypairData` variant `key_data` holds,
/// `algorithm` as `Display` writes it, `public_key().to_bytes()` and
/// `comment`. Parsing depends on the text alone, so the result is named
/// over it.
#[verifier::external_body]
fn read_openssh_key(pem: &str) -> (read: Result<KeyFacts, String>)
    ensures
        match openssh_read(pem@) {
            Err(cause) => read matches Err(c) && c@ == cause,
            Ok(r) => read matches Ok(f) && read_view(f) == r,
        },
{
    let key = ssh_key::PrivateKey::from_openssh(pem).map_err(|e| e.to_string())?;
    let kind = match key.key_data() {
        ssh_key::private::KeypairData::Ed25519(_) => KeyKind::Ed25519,
        ssh_key::private::KeypairData::Rsa(_) => KeyKind::Rsa,
        ssh_key::private::KeypairData::Ecdsa(_) => KeyKind::Ecdsa,
        _ => KeyKind::Other,
    };
    let public_blob = key.public_key().to_bytes().map_err(|e| e.to_string());
    let comment = key.comment().to_string();
    Ok(KeyFacts { encrypted: key.is_encrypted(), kind, algorithm: key.algorithm().to_string(), public_blob, comment })
}

/// Why a key could not be loaded, or the socket could not be made.
#[derive(Clone, Debug)]
pub enum AgentError {
    /// The key file could not be read or parsed.
    Unreadable { path: String, cause: String },
    /// The key is protected by a passphrase.
    Encrypted { path: String },
    /// The key's algorithm cannot be signed with.
    UnsupportedAlgorithm { path: String, algorithm: String },
    /// The public key could not be encoded.
    Unencodable { path: String, cause: String },
    /// The socket path is too long for a Unix socket.
    SocketPathTooLong { path: String, length: usize },
    /// A request's length prefix is zero or above the ceiling.
    RequestLengthOutOfRange { claimed: u32 },
}

/// The text of an agent error.
pub open spec fn agent_error_text(error: AgentError) -> Seq<char> {
    match error {
        AgentError::Unreadable { path, cause } => "Failed to read the SSH private key '"@ + path@ + "': "@ + cause@,
        AgentError::Encrypted { path } => "The SSH private key '"@ + path@
            + "' is protected by a passphrase, which this agent cannot use — load it into a running ssh-agent and forward that instead, or use a key with no passphrase"@,
        AgentError::UnsupportedAlgorithm { path, algorithm } => "The SSH private key '"@ + path@
            + "' uses the algorithm '"@ + algorithm@
            + "', which this agent cannot sign with — Ed25519, RSA and ECDSA keys are supported"@,
        AgentError::Unencodable { path, cause } => "Failed to encode the public key of '"@ + path@ + "': "@ + cause@,
        AgentError::SocketPathTooLong { path, length } => "The socket path '"@ + path@ + "' is "@ + decimal(
            length as nat,
        ) + " characters long, which is too long for a Unix socket — set TMPDIR to a shorter directory"@,
        AgentError::RequestLengthOutOfRange { claimed } => "ssh-agent request length "@ + decimal(claimed as nat)
            + " is out of range"@,
    }
}

impl AgentError {
    /// The error as the reader sees it.
    pub fn message(&self) -> (text: String)
        ensures
            text@ == agent_error_text(*self),
    {
        let mut s = String::new();
        match self {
            AgentError::Unreadable { path, cause } => {
                s.append("Failed to read the SSH private key '");
                s.append(path.as_str());
                s.append("': ");
                s.append(cause.as_str());
            },
            AgentError::Encrypted { path } => {
                s.append("The SSH private key '");
                s.append(path.as_str());
                s.append(
                    "' is protected by a passphrase, which this agent cannot use — load it into a running ssh-agent and forward that instead, or use a key with no passphrase",
                );
            },
            AgentError::UnsupportedAlgorithm { path, algorithm } => {
                s.append("The SSH private key '");
                s.append(path.as_str());
                s.append("' uses the algorithm '");
                s.append(algorithm.as_str());
                s.append("', which this agent cannot sign with — Ed25519, RSA and ECDSA keys are supported");
            },
            AgentError::Unencodable { path, cause } => {
                s.append("Failed to encode the public key of '");
                s.append(path.as_str());
                s.append("': ");
                s.append(cause.as_str());
            },
            AgentError::SocketPathTooLong { path, length } => {
                s.append("The socket path '");
                s.append(path.as_str());
                s.append("' is ");
                let n = to_decimal(*length as u64);
                s.append(n.as_str());
                s.append(" characters long, which is too long for a Unix socket — set TMPDIR to a shorter directory");
            },
            AgentError::RequestLengthOutOfRange { claimed } => {
                s.append("ssh-agent request length ");
                let n = to_decimal(*claimed as u64);
                s.append(n.as_str());
                s.append(" is out of range");
            },
        }
        s
    }
}

/// One private key this agent signs with, with the public blob a client
/// names it by and the comment `ssh-add -l` shows.
pub struct LoadedKey {
    blob: Vec<u8>,
    comment: String,
    kind: KeyKind,
    /// The key itself, as the OpenSSH private key text it was read from.
    pem: String,
}

impl LoadedKey {
    #[verifier::type_invariant]
    closed spec fn inv(self) -> bool {
        &&& self.blob@.len() <= u32::MAX
        &&& utf8(self.comment@).len() <= u32::MAX
        &&& self.kind != KeyKind::Other
    }

    /// The public blob a client names this key by.
    pub closed spec fn blob_spec(&self) -> Seq<u8> {
        self.blob@
    }

    /// The comment shown for this key.
    pub closed spec fn comment_spec(&self) -> Seq<char> {
        self.comment@
    }

    /// The kind of this key.
    pub closed spec fn kind_spec(&self) -> KeyKind {
        self.kind
    }

    /// The OpenSSH private key text this key was read from.
    pub closed spec fn pem_spec(&self) -> Seq<char> {
        self.pem@
    }
}

/// Whether loading a key of which `read` holds what was read, from
/// `path`, fails with `e`: a passphrase first, then an algorithm this agent
/// cannot sign with, then a public key that cannot be encoded.
pub open spec fn load_refusal(path: Seq<char>, read: KeyRead, e: AgentError) -> bool {
    if read.0 {
        e matches AgentError::Encrypted { path: p } && p@ == path
    } else if read.1 == KeyKind::Other {
        e matches AgentError::UnsupportedAlgorithm { path: p, algorithm: a } && p@ == path && a@ == read.2
    } else {
        match read.3 {
            Err(cause) => e matches AgentError::Unencodable { path: p, cause: c } && p@ == path && c@ == cause,
            Ok(_) => false,
        }
    }
}

/// Whether `e` is a refusal to load the key read from `path`, naming it.
pub open spec fn refuses_key_at(e: AgentError, path: Seq<char>) -> bool {
    match e {
        AgentError::Unreadable { path: p, .. } => p@ == path,
        AgentError::Encrypted { path: p } => p@ == path,
        AgentError::UnsupportedAlgorithm { path: p, .. } => p@ == path,
        AgentError::Unencodable { path: p, .. } => p@ == path,
        _ => false,
    }
}

/// Whether `loaded` is what loading the key text `pem`, of which `read`
/// holds what was read, gives for the file at `path`: refused for a
/// passphrase, an algorithm this agent cannot sign with, or a public key
/// that cannot be encoded, in that order; refused too where the blob or
/// comment does not fit the agent protocol; otherwise loaded with that
/// blob, comment and kind, keeping `pem` to sign with.
pub open spec fn loaded_as(path: Seq<char>, pem: Seq<char>, read: KeyRead, loaded: Result<LoadedKey, AgentError>) -> bool {
    &&& loaded matches Err(e) ==> load_refusal(path, read, e) || (e matches AgentError::Unencodable {
        path: p,
        cause: c,
    } && p@ == path)
    &&& loaded matches Ok(k) ==> (!read.0 && read.1 != KeyKind::Other && (read.3 matches Ok(b) && k.blob_spec()
        == b) && k.comment_spec() == read.4 && k.kind_spec() == read.1 && k.pem_spec() == pem)
    &&& !read.0 && read.1 != KeyKind::Other ==> (read.3 matches Ok(b) ==> (b.len() <= u32::MAX && utf8(read.4).len()
        <= u32::MAX ==> loaded is Ok))
    &&& read.0 || read.1 == KeyKind::Other || read.3 is Err ==> (loaded matches Err(e) && load_refusal(path, read, e))
}

/// Loads the OpenSSH private key `pem`, read from `path`. Refuses, up
/// front rather than as an opaque authentication failure later, a key that
/// cannot be parsed, is protected by a passphrase, or uses an algorithm
/// this agent cannot sign with.
pub fn load_key(path: &str, pem: &str) -> (loaded: Result<LoadedKey, AgentError>)
    ensures
        match openssh_read(pem@) {
            Err(cause) => loaded matches Err(AgentError::Unreadable { path: p, cause: c }) && p@ == path@ && c@
                == cause,
            Ok(read) => loaded_as(path@, pem@, read, loaded),
        },
        loaded matches Err(e) ==> refuses_key_at(e, path@),
        loaded matches Ok(k) ==> k.kind_spec() != KeyKind::Other,
{
    let facts = match read_openssh_key(pem) {
        Ok(facts) => facts,
        Err(cause) => {
            return Err(AgentError::Unreadable { path: path.to_string(), cause });
        },
    };
    loaded_from(path, pem.to_string(), facts)
}

/// The key text `pem`, of which `facts` holds what was read, as loaded
/// from `path`, or why it cannot be.
pub fn loaded_from(path: &str, pem: String, facts: KeyFacts) -> (loaded: Result<LoadedKey, AgentError>)
    ensures
        loaded_as(path@, pem@, read_view(facts), loaded),
{
    if facts.encrypted {
        return Err(AgentError::Encrypted { path: path.to_string() });
    }
    if facts.kind == KeyKind::Other {
        return Err(AgentError::UnsupportedAlgorithm { path: path.to_string(), algorithm: facts.algorithm });
    }
    let blob = match facts.public_blob {
        Ok(blob) => blob,
        Err(cause) => {
            return Err(AgentError::Unencodable { path: path.to_string(), cause });
        },
    };
    let comment_length = utf8_bytes(facts.comment.as_str()).len();
    if blob.len() > 4294967295 || comment_length > 4294967295 {
        return Err(
            AgentError::Unencodable {
                path: path.to_string(),
                cause: "the key does not fit the agent protocol".to_string(),
            },
        );
    }
    Ok(LoadedKey { blob, comment: facts.comment, kind: facts.kind, pem })
}

/// The socket path must fit a Unix socket's address: checked before
/// binding, since an over-long path fails to bind with an error that says
/// nothing about why.
pub fn check_socket_path_length(socket_path: &str) -> (checked: Result<(), AgentError>)
    ensures
        checked is Err <==> utf8(socket_path@).len() > MAX_SOCKET_PATH_LENGTH,
        checked matches Err(e) ==> (e matches AgentError::SocketPathTooLong { path, length } && path@
            == socket_path@ && length == utf8(socket_path@).len()),
{
    let length = utf8_bytes(socket_path).len();
    if length > MAX_SOCKET_PATH_LENGTH {
        return Err(AgentError::SocketPathTooLong { path: socket_path.to_string(), length });
    }
    Ok(())
}

// ---------------------------------------------------------------------
// Signing
// ---------------------------------------------------------------------

/// The SHA-2 variant an RSA signature is made under.
#[derive(Clone, Copy, Debug, PartialEq, Eq, Structural)]
pub enum RsaHash {
    Sha256,
    Sha512,
}

/// The hash an RSA key signs under for a request with `flags`: SHA-512
/// where asked for (the stronger, should a client set both), else SHA-256
/// where asked for, else none. Neither flag asks for legacy SHA-1
/// `ssh-rsa`, which is refused: OpenSSH has disabled it by default on both
/// ends since 8.8.
pub open spec fn rsa_hash_spec(flags: u32) -> Option<RsaHash> {
    if flags & SSH_AGENT_RSA_SHA2_512 != 0 {
        Some(RsaHash::Sha512)
    } else if flags & SSH_AGENT_RSA_SHA2_256 != 0 {
        Some(RsaHash::Sha256)
    } else {
        None
    }
}

/// The hash an RSA key signs under for a request with `flags`.
pub fn rsa_hash_for(flags: u32) -> (hash: Option<RsaHash>)
    ensures
        hash == rsa_hash_spec(flags),
{
    if flags & SSH_AGENT_RSA_SHA2_512 != 0 {
        Some(RsaHash::Sha512)
    } else if flags & SSH_AGENT_RSA_SHA2_256 != 0 {
        Some(RsaHash::Sha256)
    } else {
        None
    }
}

/// The components of an RSA private key, big-endian.
pub struct RsaComponents {
    pub n: Vec<u8>,
    pub e: Vec<u8>,
    pub d: Vec<u8>,
    pub p: Vec<u8>,
    pub q: Vec<u8>,
}

/// The components (`n`, `e`, `d`, `p`, `q`) of the RSA key the OpenSSH
/// private key text `pem` holds, or `None` where it holds none.
pub uninterp spec fn openssh_rsa_components(pem: Seq<char>) -> Option<(Seq<u8>, Seq<u8>, Seq<u8>, Seq<u8>, Seq<u8>)>;

/// `ssh_key::PrivateKey::from_openssh` of `pem`, then, for an RSA keypair,
/// `public.n`, `public.e`, `private.d`, `private.p` and `private.q`, each
/// by `Mpint::as_positive_bytes`; `None` where `pem` does not parse, holds
/// another kind of key, or has a component that is not positive. The key
/// is rebuilt from them to sign, since `ssh-key` 0.6.7's own conversion
/// passes `p` twice.
#[verifier::external_body]
fn rsa_components(pem: &str) -> (components: Option<RsaComponents>)
    ensures
        match openssh_rsa_components(pem@) {
            None => components is None,
            Some((n, e, d, p, q)) => components matches Some(c) && c.n@ == n && c.e@ == e && c.d@ == d && c.p@ == p
                && c.q@ == q,
        },
{
    let key = ssh_key::PrivateKey::from_openssh(pem).ok()?;
    match key.key_data() {
        ssh_key::private::KeypairData::Rsa(keypair) => Some(
            RsaComponents {
                n: keypair.public.n.as_positive_bytes()?.to_vec(),
                e: keypair.public.e.as_positive_bytes()?.to_vec(),
                d: keypair.private.d.as_positive_bytes()?.to_vec(),
                p: keypair.private.p.as_positive_bytes()?.to_vec(),
                q: keypair.private.q.as_positive_bytes()?.to_vec(),
            },
        ),
        _ => None,
    }
}

/// The PKCS #1 v1.5 signature of `data` under `hash` by the RSA key with
/// components `n`, `e`, `d`, `p`, `q`, or `None` where no key can be built
/// from them or signing fails: a function of these alone, since the
/// signature is the padded digest raised to `d` modulo `n`.
pub uninterp spec fn pkcs1v15_signature(
    n: Seq<u8>,
    e: Seq<u8>,
    d: Seq<u8>,
    p: Seq<u8>,
    q: Seq<u8>,
    hash: RsaHash,
    data: Seq<u8>,
) -> Option<Seq<u8>>;

/// `rsa::RsaPrivateKey::from_components` of `c`, then
/// `rsa::pkcs1v15::SigningKey::<Sha256>`'s `try_sign_with_rng` of `data`,
/// or `None` where the components disagree or signing fails. The random
/// generator only blinds the private operation; whether a signature comes
/// back, and which, depends on the components, the hash and the data alone.
#[verifier::external_body]
fn rsa_sign_sha256(c: &RsaComponents, data: &[u8]) -> (blob: Option<Vec<u8>>)
    ensures
        match pkcs1v15_signature(c.n@, c.e@, c.d@, c.p@, c.q@, RsaHash::Sha256, data@) {
            None => blob is None,
            Some(s) => blob matches Some(b) && b@ == s,
        },
{
    let part = |bytes: &Vec<u8>| rsa::BigUint::from_bytes_be(bytes);
    let key = rsa::RsaPrivateKey::from_components(part(&c.n), part(&c.e), part(&c.d), vec![part(&c.p), part(&c.q)]).ok()?;
    let signing_key = rsa::pkcs1v15::SigningKey::<ssh_key::sha2::Sha256>::new(key);
    let mut rng = rsa::rand_core::OsRng;
    let signature = rsa::signature::RandomizedSigner::try_sign_with_rng(&signing_key, &mut rng, data).ok()?;
    Some(rsa::signature::SignatureEncoding::to_vec(&signature))
}

/// As [`rsa_sign_sha256`], under SHA-512.
#[verifier::external_body]
fn rsa_sign_sha512(c: &RsaComponents, data: &[u8]) -> (blob: Option<Vec<u8>>)
    ensures
        match pkcs1v15_signature(c.n@, c.e@, c.d@, c.p@, c.q@, RsaHash::Sha512, data@) {
            None => blob is None,
            Some(s) => blob matches Some(b) && b@ == s,
        },
{
    let part = |bytes: &Vec<u8>| rsa::BigUint::from_bytes_be(bytes);
    let key = rsa::RsaPrivateKey::from_components(part(&c.n), part(&c.e), part(&c.d), vec![part(&c.p), part(&c.q)]).ok()?;
    let signing_key = rsa::pkcs1v15::SigningKey::<ssh_key::sha2::Sha512>::new(key);
    let mut rng = rsa::rand_core::OsRng;
    let signature = rsa::signature::RandomizedSigner::try_sign_with_rng(&signing_key, &mut rng, data).ok()?;
    Some(rsa::signature::SignatureEncoding::to_vec(&signature))
}

/// The name an RSA signature under `hash` carries.
pub open spec fn rsa_algorithm_name(hash: RsaHash) -> Seq<char> {
    match hash {
        RsaHash::Sha256 => "rsa-sha2-256"@,
        RsaHash::Sha512 => "rsa-sha2-512"@,
    }
}

/// A signature as RFC 9987 encodes one: the algorithm's `name` as a
/// `string`, then the raw signature as a `string`.
pub open spec fn named_signature(name: Seq<u8>, raw: Seq<u8>) -> Seq<u8> {
    string_field(name) + string_field(raw)
}

/// An RSA signature under `hash` of the raw signature `blob`.
pub open spec fn rsa_signature_bytes(hash: RsaHash, blob: Seq<u8>) -> Seq<u8> {
    named_signature(utf8(rsa_algorithm_name(hash)), blob)
}

/// `ssh_key::Signature::new` for `rsa-sha2-256` or `rsa-sha2-512` and the
/// raw signature `blob`, then `Vec::<u8>::try_from` of it. The source
/// accepts any blob for these algorithms and encodes the algorithm's name
/// and then the blob, each as a `string`; the encoding fails only where the
/// blob's length does not fit a `uint32`.
#[verifier::external_body]
fn rsa_signature_encoding(hash: RsaHash, blob: Vec<u8>) -> (encoded: Option<Vec<u8>>)
    ensures
        encoded is Some <==> blob@.len() <= u32::MAX,
        encoded matches Some(e) ==> e@ == rsa_signature_bytes(hash, blob@),
{
    let hash = match hash {
        RsaHash::Sha256 => ssh_key::HashAlg::Sha256,
        RsaHash::Sha512 => ssh_key::HashAlg::Sha512,
    };
    let signature = ssh_key::Signature::new(ssh_key::Algorithm::Rsa { hash: Some(hash) }, blob).ok()?;
    Vec::<u8>::try_from(signature).ok()
}

/// The signature, encoded for the wire, that the key the OpenSSH private
/// key text `pem` holds makes of `data` through `ssh-key`'s own signer, or
/// `None` where the text does not parse or the signer refuses: Ed25519 and
/// RFC 6979 ECDSA signatures depend on the key and the data alone.
pub uninterp spec fn openssh_signature(pem: Seq<char>, data: Seq<u8>) -> Option<Seq<u8>>;

/// `ssh_key::PrivateKey::from_openssh` of `pem`, its `try_sign` of `data`,
/// then `Vec::<u8>::try_from` of the signature, or `None` where any step
/// fails. The source encodes every signature as its algorithm's name and
/// then its bytes, each as a `string`.
#[verifier::external_body]
fn sign_with_key(pem: &str, data: &[u8]) -> (encoded: Option<Vec<u8>>)
    ensures
        match openssh_signature(pem@, data@) {
            None => encoded is None,
            Some(s) => encoded matches Some(e) && e@ == s,
        },
        encoded matches Some(e) ==> exists|name: Seq<u8>, raw: Seq<u8>| e@ == #[trigger] named_signature(name, raw),
{
    let key = ssh_key::PrivateKey::from_openssh(pem).ok()?;
    let signature: ssh_key::Signature = rsa::signature::Signer::try_sign(&key, data).ok()?;
    Vec::<u8>::try_from(signature).ok()
}

/// The signature `key` makes of `data` for a request with `flags`, where it
/// makes one: an RSA key signs with its components under the SHA-2 variant
/// the flags ask for, and makes none for a request asking for neither;
/// every other kind signs through `ssh-key`'s own signer, the flags
/// (defined for RSA only) ignored.
pub open spec fn signature_of(key: LoadedKey, flags: u32, data: Seq<u8>) -> Option<Seq<u8>> {
    if key.kind_spec() == KeyKind::Rsa {
        match rsa_hash_spec(flags) {
            None => None,
            Some(h) => match openssh_rsa_components(key.pem_spec()) {
                None => None,
                Some((n, e, d, p, q)) => match pkcs1v15_signature(n, e, d, p, q, h, data) {
                    None => None,
                    Some(blob) => if blob.len() <= u32::MAX {
                        Some(rsa_signature_bytes(h, blob))
                    } else {
                        None
                    },
                },
            },
        }
    } else {
        openssh_signature(key.pem_spec(), data)
    }
}

/// The signature of `data` by `key` for a request with `flags`, encoded
/// for the wire, or `None` where it cannot be made. An RSA key signs under
/// the SHA-2 variant the flags ask for and refuses a request asking for
/// neither; every other kind has one signature format, and the flags
/// (defined for RSA only) are ignored.
pub fn sign(key: &LoadedKey, data: &[u8], flags: u32) -> (signature: Option<Vec<u8>>)
    ensures
        match signature_of(*key, flags, data@) {
            None => signature is None,
            Some(s) => signature matches Some(made) && made@ == s,
        },
{
    match key.kind {
        KeyKind::Rsa => {
            let hash = match rsa_hash_for(flags) {
                Some(h) => h,
                None => {
                    return None;
                },
            };
            let components = match rsa_components(key.pem.as_str()) {
                Some(c) => c,
                None => {
                    return None;
                },
            };
            let blob = match hash {
                RsaHash::Sha256 => rsa_sign_sha256(&components, data),
                RsaHash::Sha512 => rsa_sign_sha512(&components, data),
            };
            match blob {
                Some(b) => rsa_signature_encoding(hash, b),
                None => None,
            }
        },
        _ => sign_with_key(key.pem.as_str(), data),
    }
}

// ---------------------------------------------------------------------
// Answering requests
// ---------------------------------------------------------------------

/// The failure response.
pub open spec fn failure_message() -> Seq<u8> {
    seq![SSH_AGENT_FAILURE]
}

/// Each key's blob and comment as `string`s, in order.
pub open spec fn identity_entries(keys: Seq<LoadedKey>) -> Seq<u8>
    decreases keys.len(),
{
    if keys.len() == 0 {
        Seq::empty()
    } else {
        identity_entries(keys.drop_last()) + string_field(keys.last().blob_spec()) + string_field(
            utf8(keys.last().comment_spec()),
        )
    }
}

/// The answer to a request for identities: how many keys, then each one.
pub open spec fn identities_message(keys: Seq<LoadedKey>) -> Seq<u8> {
    seq![SSH_AGENT_IDENTITIES_ANSWER] + be32(keys.len()) + identity_entries(keys)
}

/// The answer to a sign request signed with `signature`.
pub open spec fn sign_message(signature: Seq<u8>) -> Seq<u8> {
    seq![SSH_AGENT_SIGN_RESPONSE] + string_field(signature)
}

/// The position of the first key a client names by `blob`.
pub open spec fn key_named(keys: Seq<LoadedKey>, blob: Seq<u8>) -> Option<int>
    decreases keys.len(),
{
    if keys.len() == 0 {
        None
    } else {
        match key_named(keys.drop_last(), blob) {
            Some(i) => Some(i),
            None => if keys.last().blob_spec() == blob {
                Some(keys.len() - 1)
            } else {
                None
            },
        }
    }
}

/// A sign request's contents after its type byte: the key blob, the data
/// and the flags, or `None` where any is missing.
pub open spec fn sign_request(contents: Seq<u8>) -> Option<(Seq<u8>, Seq<u8>, u32)> {
    match read_string(contents) {
        None => None,
        Some((blob, after_blob)) => match read_string(after_blob) {
            None => None,
            Some((data, after_data)) => if after_data.len() < 4 {
                None
            } else {
                Some((blob, data, be32_value(after_data.take(4)) as u32))
            },
        },
    }
}

/// The failure response.
pub fn failure() -> (message: Vec<u8>)
    ensures
        message@ == failure_message(),
{
    let mut message: Vec<u8> = Vec::new();
    message.push(SSH_AGENT_FAILURE);
    assert(message@ =~= failure_message());
    message
}

/// The answer to a request for identities: every key this agent holds,
/// with its comment.
pub fn identities_answer(keys: &[LoadedKey]) -> (message: Vec<u8>)
    requires
        keys@.len() <= u32::MAX,
    ensures
        message@ == identities_message(keys@),
{
    let mut message: Vec<u8> = Vec::new();
    message.push(SSH_AGENT_IDENTITIES_ANSWER);
    push_be32(&mut message, keys.len() as u32);
    let ghost head = message@;
    let mut i: usize = 0;
    while i < keys.len()
        invariant
            i <= keys@.len(),
            message@ == head + identity_entries(keys@.take(i as int)),
        decreases keys.len() - i,
    {
        let key = &keys[i];
        proof {
            use_type_invariant(key);
        }
        write_string(&mut message, key.blob.as_slice());
        let comment = utf8_bytes(key.comment.as_str());
        write_string(&mut message, comment.as_slice());
        assert(keys@.take(i + 1).drop_last() =~= keys@.take(i as int));
        i = i + 1;
    }
    assert(keys@.take(i as int) =~= keys@);
    assert(message@ =~= identities_message(keys@));
    message
}

/// The first key named by `blob`.
fn find_key(keys: &[LoadedKey], blob: &[u8]) -> (found: Option<usize>)
    ensures
        found matches Some(i) ==> i < keys@.len() && key_named(keys@, blob@) == Some(i as int),
        found is None ==> key_named(keys@, blob@) is None,
{
    let mut i: usize = 0;
    while i < keys.len()
        invariant
            i <= keys@.len(),
            key_named(keys@.take(i as int), blob@) is None,
        decreases keys.len() - i,
    {
        if bytes_equal(keys[i].blob.as_slice(), blob) {
            proof {
                assert(keys@.take(i + 1).drop_last() =~= keys@.take(i as int));
                lemma_key_named_prefix(keys@, blob@, i as int);
            }
            return Some(i);
        }
        assert(keys@.take(i + 1).drop_last() =~= keys@.take(i as int));
        i = i + 1;
    }
    assert(keys@.take(i as int) =~= keys@);
    None
}

/// A key found in a prefix is found, at the same position, in the whole.
proof fn lemma_key_named_prefix(keys: Seq<LoadedKey>, blob: Seq<u8>, i: int)
    requires
        0 <= i < keys.len(),
        key_named(keys.take(i + 1), blob) == Some(i),
    ensures
        key_named(keys, blob) == Some(i),
    decreases keys.len(),
{
    if keys.len() > i + 1 {
        assert(keys.drop_last().take(i + 1) =~= keys.take(i + 1));
        lemma_key_named_prefix(keys.drop_last(), blob, i);
    } else {
        assert(keys.take(i + 1) =~= keys);
    }
}

/// Whether two byte strings are equal.
fn bytes_equal(a: &[u8], b: &[u8]) -> (equal: bool)
    ensures
        equal == (a@ == b@),
{
    if a.len() != b.len() {
        return false;
    }
    let mut i: usize = 0;
    while i < a.len()
        invariant
            i <= a.len(),
            a.len() == b.len(),
            forall|k: int| 0 <= k < i ==> a@[k] == b@[k],
        decreases a.len() - i,
    {
        if a[i] != b[i] {
            return false;
        }
        i = i + 1;
    }
    assert(a@ =~= b@);
    true
}

/// The answer to one request message (its type byte and contents, without
/// the length prefix). A request for identities lists every key, trailing
/// bytes ignored. A sign request naming a held key is answered with its
/// signature, except that an RSA key refuses one asking for no SHA-2
/// variant; whatever cannot be signed, and anything unrecognized,
/// malformed or truncated, gets `SSH_AGENT_FAILURE`, since a client must
/// get an answer rather than a dropped connection.
pub fn respond(keys: &[LoadedKey], request: &[u8]) -> (response: Vec<u8>)
    requires
        keys@.len() <= u32::MAX,
    ensures
        request@.len() == 0 ==> response@ == failure_message(),
        request@.len() > 0 && request@[0] == SSH_AGENTC_REQUEST_IDENTITIES ==> response@ == identities_message(keys@),
        request@.len() > 0 && request@[0] != SSH_AGENTC_REQUEST_IDENTITIES && request@[0] != SSH_AGENTC_SIGN_REQUEST
            ==> response@ == failure_message(),
        request@.len() > 0 && request@[0] == SSH_AGENTC_SIGN_REQUEST ==> match sign_request(request@.skip(1)) {
            None => response@ == failure_message(),
            Some((blob, data, flags)) => match key_named(keys@, blob) {
                None => response@ == failure_message(),
                Some(k) => match signature_of(keys@[k], flags, data) {
                    None => response@ == failure_message(),
                    Some(signature) => if signature.len() <= u32::MAX {
                        response@ == sign_message(signature)
                    } else {
                        response@ == failure_message()
                    },
                },
            },
        },
{
    let mut reader = Reader::new(request);
    let kind = reader.u8();
    match kind {
        Some(t) => {
            if t == SSH_AGENTC_REQUEST_IDENTITIES {
                identities_answer(keys)
            } else if t == SSH_AGENTC_SIGN_REQUEST {
                proof {
                    assert(request@.skip(1) == reader.rest());
                }
                match sign_response(keys, &mut reader) {
                    Some(response) => response,
                    None => failure(),
                }
            } else {
                failure()
            }
        },
        None => failure(),
    }
}

/// The answer to a sign request whose contents `reader` holds, or `None`
/// where it cannot be answered.
fn sign_response(keys: &[LoadedKey], reader: &mut Reader) -> (response: Option<Vec<u8>>)
    ensures
        match sign_request(old(reader).rest()) {
            None => response is None,
            Some((blob, data, flags)) => match key_named(keys@, blob) {
                None => response is None,
                Some(k) => match signature_of(keys@[k], flags, data) {
                    None => response is None,
                    Some(signature) => if signature.len() <= u32::MAX {
                        response matches Some(r) && r@ == sign_message(signature)
                    } else {
                        response is None
                    },
                },
            },
        },
{
    let ghost contents = reader.rest();
    let blob = match reader.string() {
        Some(b) => b,
        None => {
            return None;
        },
    };
    let data = match reader.string() {
        Some(d) => d,
        None => {
            return None;
        },
    };
    let flags = match reader.u32() {
        Some(f) => f,
        None => {
            return None;
        },
    };
    let index = match find_key(keys, blob) {
        Some(i) => i,
        None => {
            return None;
        },
    };
    let signature = match sign(&keys[index], data, flags) {
        Some(s) => s,
        None => {
            return None;
        },
    };
    if signature.len() > 4294967295 {
        return None;
    }
    let mut response: Vec<u8> = Vec::new();
    response.push(SSH_AGENT_SIGN_RESPONSE);
    write_string(&mut response, signature.as_slice());
    assert(response@ =~= sign_message(signature@));
    Some(response)
}

/// A request's length prefix, checked: a zero-length request or one above
/// the ceiling is refused before anything is read.
pub fn check_request_length(claimed: u32) -> (length: Result<usize, AgentError>)
    ensures
        length is Ok <==> 0 < claimed && claimed <= MAX_MESSAGE_LENGTH,
        length matches Ok(n) ==> n == claimed,
        length matches Err(e) ==> (e matches AgentError::RequestLengthOutOfRange { claimed: c } && c == claimed),
{
    if claimed == 0 || claimed as usize > MAX_MESSAGE_LENGTH {
        return Err(AgentError::RequestLengthOutOfRange { claimed });
    }
    Ok(claimed as usize)
}

/// A response as it goes on the wire: its length as a big-endian
/// `uint32`, then its bytes.
pub fn frame_message(message: &[u8]) -> (framed: Vec<u8>)
    requires
        message@.len() <= u32::MAX,
    ensures
        framed@ == string_field(message@),
{
    let mut framed: Vec<u8> = Vec::new();
    write_string(&mut framed, message);
    assert(framed@ =~= string_field(message@));
    framed
}

} // verus!
