use ratect_core::ssh_agent::{
    check_request_length, check_socket_path_length, failure, frame_message, identities_answer, load_key, respond,
    loaded_from, rsa_hash_for, sign, write_string, AgentError, KeyFacts, KeyKind, LoadedKey, Reader, RsaHash,
    MAX_MESSAGE_LENGTH,
};
use ssh_key::private::{Ed25519Keypair, KeypairData, RsaKeypair};
use ssh_key::{LineEnding, PrivateKey};

/// A `uint32`, big-endian, as RFC 9987 writes one.
fn be32(n: usize) -> Vec<u8> {
    (n as u32).to_be_bytes().to_vec()
}

/// An RFC 9987 `string`.
fn string(bytes: &[u8]) -> Vec<u8> {
    let mut out = be32(bytes.len());
    out.extend_from_slice(bytes);
    out
}

fn sign_request(blob: &[u8], data: &[u8], flags: u32) -> Vec<u8> {
    let mut request = vec![13u8];
    request.extend(string(blob));
    request.extend(string(data));
    request.extend(flags.to_be_bytes());
    request
}

/// An Ed25519 key from a fixed seed, so every run signs with the same one.
fn ed25519_key() -> PrivateKey {
    PrivateKey::new(KeypairData::from(Ed25519Keypair::from_seed(&[7u8; 32])), "user@example.com").unwrap()
}

/// A 2048-bit RSA key whose primes lie just above `3 * 2^1022`: no good
/// for secrets, but fixed and quick to build.
fn rsa_key() -> PrivateKey {
    let base = rsa::BigUint::from(3u32) << 1022usize;
    let p = base.clone() + rsa::BigUint::from(1037u32);
    let q = base + (rsa::BigUint::from(1u32) << 700usize) + rsa::BigUint::from(19u32);
    let key = rsa::RsaPrivateKey::from_p_q(p, q, rsa::BigUint::from(65537u32)).unwrap();
    PrivateKey::new(KeypairData::from(RsaKeypair::try_from(key).unwrap()), "user@example.com").unwrap()
}

/// A key as an OpenSSH private key file holds it.
fn file_text(key: &PrivateKey) -> String {
    key.to_openssh(LineEnding::LF).unwrap().to_string()
}

/// The Ed25519 key's public half with a passphrase-protected private
/// half: `aes256-ctr` under `bcrypt`, the ciphertext itself arbitrary.
fn encrypted_file_text() -> String {
    let mut bytes = b"openssh-key-v1\0".to_vec();
    bytes.extend(string(b"aes256-ctr"));
    bytes.extend(string(b"bcrypt"));
    let mut options = string(&[1u8; 16]);
    options.extend(be32(16));
    bytes.extend(string(&options));
    bytes.extend(be32(1));
    bytes.extend(string(&ed25519_key().public_key().to_bytes().unwrap()));
    bytes.extend(string(&[0u8; 32]));
    file_text(&PrivateKey::from_bytes(&bytes).unwrap())
}

fn ed25519() -> LoadedKey {
    load_key("id_ed25519", &file_text(&ed25519_key())).unwrap()
}

fn rsa() -> LoadedKey {
    load_key("id_rsa", &file_text(&rsa_key())).unwrap()
}

/// The blob of the only key an identities answer lists.
fn only_blob(answer: &[u8]) -> Vec<u8> {
    let mut reader = Reader::new(answer);
    assert_eq!(reader.u8(), Some(12));
    assert_eq!(reader.u32(), Some(1));
    reader.string().unwrap().to_vec()
}

#[test]
fn an_empty_agent_lists_no_identities() {
    assert_eq!(respond(&[], &[11]), vec![12, 0, 0, 0, 0]);
}

#[test]
fn a_request_for_identities_ignores_trailing_bytes() {
    assert_eq!(respond(&[], &[11, 1, 2, 3]), vec![12, 0, 0, 0, 0]);
}

#[test]
fn anything_unrecognized_is_a_failure() {
    assert_eq!(respond(&[], &[]), vec![5]);
    assert_eq!(respond(&[], &[17]), vec![5]);
    assert_eq!(respond(&[], &[25, 0, 0, 0, 0]), vec![5]);
    assert_eq!(failure(), vec![5]);
}

#[test]
fn a_truncated_sign_request_is_a_failure() {
    assert_eq!(respond(&[], &[13]), vec![5]);
    assert_eq!(respond(&[], &[13, 0, 0, 0, 9, 1]), vec![5]);
    let mut request = vec![13u8];
    request.extend(string(b"blob"));
    request.extend(string(b"data"));
    request.extend([0, 0]);
    assert_eq!(respond(&[], &request), vec![5]);
}

#[test]
fn a_key_lists_its_blob_and_comment() {
    let keys = vec![ed25519()];
    let answer = identities_answer(&keys);
    let blob = only_blob(&answer);
    assert_eq!(blob.len(), 51);
    assert_eq!(&blob[..15], &string(b"ssh-ed25519")[..]);
    let mut expected = vec![12u8, 0, 0, 0, 1];
    expected.extend(string(&blob));
    expected.extend(string(b"user@example.com"));
    assert_eq!(answer, expected);
    assert_eq!(respond(&keys, &[11]), answer);
}

#[test]
fn a_sign_request_naming_a_held_key_is_signed() {
    let keys = vec![ed25519()];
    let blob = only_blob(&identities_answer(&keys));
    let response = respond(&keys, &sign_request(&blob, b"session", 0));
    assert_eq!(response[0], 14);
    let mut reader = Reader::new(&response[1..]);
    let signature = reader.string().unwrap();
    let mut inner = Reader::new(signature);
    assert_eq!(inner.string().unwrap(), b"ssh-ed25519");
    assert_eq!(inner.string().unwrap().len(), 64);
}

#[test]
fn a_sign_request_naming_an_unknown_key_is_a_failure() {
    let keys = vec![ed25519()];
    assert_eq!(respond(&keys, &sign_request(b"not a key", b"session", 0)), vec![5]);
}

/// Neither flag asks for legacy SHA-1 `ssh-rsa`, which is refused.
#[test]
fn an_rsa_key_refuses_a_sha1_signature_and_makes_the_sha2_ones() {
    let keys = vec![rsa()];
    let blob = only_blob(&identities_answer(&keys));
    assert_eq!(respond(&keys, &sign_request(&blob, b"session", 0)), vec![5]);

    for (flags, algorithm) in [(2u32, &b"rsa-sha2-256"[..]), (4, &b"rsa-sha2-512"[..]), (6, &b"rsa-sha2-512"[..])] {
        let response = respond(&keys, &sign_request(&blob, b"session", flags));
        assert_eq!(response[0], 14, "flags {flags}");
        let mut reader = Reader::new(&response[1..]);
        let signature = reader.string().unwrap();
        let mut inner = Reader::new(signature);
        assert_eq!(inner.string().unwrap(), algorithm);
        assert_eq!(inner.string().unwrap().len(), 256);
    }
}

#[test]
fn the_flags_choose_the_rsa_hash() {
    assert_eq!(rsa_hash_for(0), None);
    assert_eq!(rsa_hash_for(1), None);
    assert_eq!(rsa_hash_for(2), Some(RsaHash::Sha256));
    assert_eq!(rsa_hash_for(4), Some(RsaHash::Sha512));
    assert_eq!(rsa_hash_for(6), Some(RsaHash::Sha512));
}

#[test]
fn a_key_protected_by_a_passphrase_is_refused_up_front() {
    let error = load_key("/keys/id_enc", &encrypted_file_text()).err().unwrap();
    assert!(matches!(error, AgentError::Encrypted { .. }));
    assert!(error.message().contains("The SSH private key '/keys/id_enc' is protected by a passphrase"));
}

#[test]
fn a_key_of_another_algorithm_is_refused_up_front() {
    let facts = KeyFacts {
        encrypted: false,
        kind: KeyKind::Other,
        algorithm: "ssh-dss".to_string(),
        public_blob: Ok(vec![0, 0, 0, 7]),
        comment: "user@example.com".to_string(),
    };
    let error = loaded_from("/keys/id_dsa", file_text(&ed25519_key()), facts).err().unwrap();
    assert!(matches!(error, AgentError::UnsupportedAlgorithm { .. }));
    assert!(error.message().contains("'/keys/id_dsa' uses the algorithm 'ssh-dss'"));
}

#[test]
fn text_that_is_no_key_is_unreadable() {
    let error = load_key("/keys/junk", "not a key").err().unwrap();
    assert!(matches!(error, AgentError::Unreadable { .. }));
    assert!(error.message().starts_with("Failed to read the SSH private key '/keys/junk': "));
}

#[test]
fn a_written_string_reads_back() {
    let mut out = Vec::new();
    write_string(&mut out, b"hello");
    write_string(&mut out, b"");
    assert_eq!(out, vec![0, 0, 0, 5, b'h', b'e', b'l', b'l', b'o', 0, 0, 0, 0]);
    let mut reader = Reader::new(&out);
    assert_eq!(reader.string(), Some(&b"hello"[..]));
    assert_eq!(reader.string(), Some(&b""[..]));
    assert_eq!(reader.string(), None);
}

#[test]
fn a_reader_refuses_to_read_past_the_end() {
    let bytes = [1u8, 2, 3];
    let mut reader = Reader::new(&bytes);
    assert_eq!(reader.u32(), None);
    assert_eq!(reader.take(2), Some(&bytes[..2]));
    assert_eq!(reader.take(2), None);
    assert_eq!(reader.u8(), Some(3));
    assert_eq!(reader.u8(), None);
}

#[test]
fn a_request_length_must_be_positive_and_within_the_ceiling() {
    assert!(check_request_length(0).is_err());
    assert_eq!(check_request_length(1).ok(), Some(1));
    assert_eq!(check_request_length(MAX_MESSAGE_LENGTH as u32).ok(), Some(MAX_MESSAGE_LENGTH));
    let error = check_request_length(MAX_MESSAGE_LENGTH as u32 + 1).unwrap_err();
    assert_eq!(error.message(), "ssh-agent request length 262145 is out of range");
}

#[test]
fn a_response_goes_out_behind_its_length() {
    assert_eq!(frame_message(&[5]), vec![0, 0, 0, 1, 5]);
}

#[test]
fn a_socket_path_must_fit_a_unix_socket_address() {
    let fits = "/".repeat(100);
    assert!(check_socket_path_length(&fits).is_ok());
    let long = "/".repeat(101);
    let error = check_socket_path_length(&long).unwrap_err();
    assert!(error.message().contains("is 101 characters long, which is too long for a Unix socket"));
    // Counted in bytes, as the socket address holds them.
    assert!(check_socket_path_length(&"é".repeat(51)).is_err());
}

#[test]
fn a_sign_answer_carries_the_named_keys_signature_of_the_requested_data() {
    let keys = vec![ed25519()];
    let blob = only_blob(&identities_answer(&keys));
    let signature = sign(&keys[0], b"session", 0).unwrap();
    let mut expected = vec![14u8];
    expected.extend(string(&signature));
    assert_eq!(respond(&keys, &sign_request(&blob, b"session", 0)), expected);
    assert_ne!(sign(&keys[0], b"other data", 0).unwrap(), signature);
    let rsa_keys = vec![rsa()];
    assert_eq!(sign(&rsa_keys[0], b"session", 2), sign(&rsa_keys[0], b"session", 2));
    assert_eq!(sign(&rsa_keys[0], b"session", 0), None);
}

#[test]
fn a_held_key_always_signs_what_it_is_asked_to() {
    let keys = vec![ed25519()];
    assert_eq!(sign(&keys[0], b"session", 6), sign(&keys[0], b"session", 0));
    assert!(sign(&keys[0], b"", 0).is_some());
    let rsa_keys = vec![rsa()];
    let blob = only_blob(&identities_answer(&rsa_keys));
    let signature = sign(&rsa_keys[0], b"session", 4).unwrap();
    let mut expected = vec![14u8];
    expected.extend(string(&signature));
    assert_eq!(respond(&rsa_keys, &sign_request(&blob, b"session", 4)), expected);
    assert_ne!(sign(&rsa_keys[0], b"session", 2), sign(&rsa_keys[0], b"session", 4));
}
