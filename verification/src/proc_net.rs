//! Reading the kernel's `/proc/net/tcp` and `/proc/net/tcp6` tables to find
//! which proxy ports are listening on loopback addresses only — the case a
//! rewritten proxy URL cannot fix, since a socket bound to `127.0.0.1`
//! never accepts a connection on the container's network.
//!
//! The tables are taken as text rather than read here, so the parsing and
//! the check built on it are the same on every platform.

use vstd::prelude::*;

use std::collections::BTreeSet;

use crate::text::{chars_of, index_of_char, is_whitespace, lemma_index_of_char, lemma_run_len, run_len, whitespace};

verus! {

broadcast use vstd::std_specs::btree::group_btree_axioms, vstd::laws_cmp::group_laws_cmp;

/// The first `n` whitespace-separated fields of `s`, or all of them when it
/// has fewer.
pub open spec fn fields(s: Seq<char>, n: nat) -> Seq<Seq<char>>
    decreases n,
{
    if n == 0 {
        Seq::empty()
    } else {
        let t = s.skip(run_len(s, true) as int);
        if t.len() == 0 {
            Seq::empty()
        } else {
            let w = run_len(t, false);
            seq![t.take(w as int)] + fields(t.skip(w as int), (n - 1) as nat)
        }
    }
}

/// The next field of `chars[from..to]`: where it starts and ends.
fn next_field(chars: &Vec<char>, from: usize, to: usize) -> (field: Option<(usize, usize)>)
    requires
        from <= to <= chars.len(),
    ensures
        ({
            let s = chars@.subrange(from as int, to as int);
            let t = s.skip(run_len(s, true) as int);
            match field {
                None => t.len() == 0,
                Some((start, end)) => {
                    &&& t.len() > 0
                    &&& from <= start < end <= to
                    &&& chars@.subrange(start as int, end as int) == t.take(run_len(t, false) as int)
                    &&& chars@.subrange(end as int, to as int) == t.skip(run_len(t, false) as int)
                }
            }
        }),
{
    let ghost s = chars@.subrange(from as int, to as int);
    let mut start = from;
    while start < to && whitespace(chars[start])
        invariant
            from <= start <= to <= chars.len(),
            forall|k: int| from <= k < start ==> is_whitespace(#[trigger] chars@[k]),
        decreases to - start,
    {
        start = start + 1;
    }
    proof {
        assert forall|k: int| 0 <= k < start - from implies is_whitespace(#[trigger] s[k]) by {
            assert(s[k] == chars@[from + k]);
        }
        if start < to {
            assert(s[start - from] == chars@[start as int]);
        }
        lemma_run_len(s, true, start - from);
        assert(s.skip(start - from) =~= chars@.subrange(start as int, to as int));
    }
    if start == to {
        return None;
    }
    let ghost t = chars@.subrange(start as int, to as int);
    let mut end = start;
    while end < to && !whitespace(chars[end])
        invariant
            start <= end <= to <= chars.len(),
            forall|k: int| start <= k < end ==> !is_whitespace(#[trigger] chars@[k]),
        decreases to - end,
    {
        end = end + 1;
    }
    proof {
        assert forall|k: int| 0 <= k < end - start implies is_whitespace(#[trigger] t[k]) == false by {
            assert(t[k] == chars@[start + k]);
        }
        if end < to {
            assert(t[end - start] == chars@[end as int]);
        }
        lemma_run_len(t, false, end - start);
        assert(t.take(end - start) =~= chars@.subrange(start as int, end as int));
        assert(t.skip(end - start) =~= chars@.subrange(end as int, to as int));
    }
    Some((start, end))
}

/// The value of a hexadecimal digit.
pub open spec fn hex_digit_value(c: char) -> int {
    if '0' <= c && c <= '9' {
        (c as int) - ('0' as int)
    } else if 'a' <= c && c <= 'f' {
        (c as int) - ('a' as int) + 10
    } else {
        (c as int) - ('A' as int) + 10
    }
}

pub open spec fn is_hex_digit(c: char) -> bool {
    ('0' <= c && c <= '9') || ('a' <= c && c <= 'f') || ('A' <= c && c <= 'F')
}

/// The number hexadecimal `digits` spell.
pub open spec fn hex_value(digits: Seq<char>) -> nat
    decreases digits.len(),
{
    if digits.len() == 0 {
        0
    } else {
        (16 * hex_value(digits.drop_last()) + hex_digit_value(digits.last())) as nat
    }
}

/// The digits an unsigned `from_str_radix` reads: everything after one
/// optional leading `+`.
pub open spec fn radix_digits(s: Seq<char>) -> Seq<char> {
    if s.len() > 0 && s[0] == '+' {
        s.drop_first()
    } else {
        s
    }
}

/// What `from_str_radix(s, 16)` gives for an unsigned type whose largest
/// value is `max`: the value when `s` is one optional `+` and at least one
/// hexadecimal digit spelling a number no larger than `max`.
pub open spec fn parse_hex_spec(s: Seq<char>, max: nat) -> Option<nat> {
    let digits = radix_digits(s);
    if digits.len() > 0 && (forall|k: int| 0 <= k < digits.len() ==> is_hex_digit(#[trigger] digits[k]))
        && hex_value(digits) <= max {
        Some(hex_value(digits))
    } else {
        None
    }
}

proof fn lemma_hex_value_grows(digits: Seq<char>, k: int)
    requires
        0 <= k <= digits.len(),
        forall|m: int| 0 <= m < digits.len() ==> is_hex_digit(#[trigger] digits[m]),
    ensures
        hex_value(digits.take(k)) <= hex_value(digits),
    decreases digits.len() - k,
{
    if k < digits.len() {
        lemma_hex_value_grows(digits, k + 1);
        assert(digits.take(k + 1).drop_last() =~= digits.take(k));
    } else {
        assert(digits.take(k) =~= digits);
    }
}

fn hex_digit(c: char) -> (d: Option<u64>)
    ensures
        d is Some == is_hex_digit(c),
        d matches Some(v) ==> v == hex_digit_value(c) && v < 16,
{
    if '0' <= c && c <= '9' {
        Some((c as u64) - ('0' as u64))
    } else if 'a' <= c && c <= 'f' {
        Some((c as u64) - ('a' as u64) + 10)
    } else if 'A' <= c && c <= 'F' {
        Some((c as u64) - ('A' as u64) + 10)
    } else {
        None
    }
}

/// `chars[from..to]` read as a hexadecimal number no larger than `max`.
fn parse_hex(chars: &Vec<char>, from: usize, to: usize, max: u64) -> (value: Option<u64>)
    requires
        from <= to <= chars.len(),
        max >= 16,
    ensures
        match parse_hex_spec(chars@.subrange(from as int, to as int), max as nat) {
            None => value is None,
            Some(v) => value == Some(v as u64),
        },
{
    let ghost s = chars@.subrange(from as int, to as int);
    let mut start = from;
    if from < to && chars[from] == '+' {
        start = from + 1;
    }
    let ghost digits = chars@.subrange(start as int, to as int);
    assert(radix_digits(s) =~= digits);
    if start == to {
        return None;
    }
    let mut value: u64 = 0;
    let mut k = start;
    while k < to
        invariant
            start <= k <= to <= chars.len(),
            max >= 16,
            digits == chars@.subrange(start as int, to as int),
            radix_digits(chars@.subrange(from as int, to as int)) == digits,
            digits.len() > 0,
            forall|m: int| 0 <= m < k - start ==> is_hex_digit(#[trigger] digits[m]),
            value as nat == hex_value(digits.take(k - start)),
            value <= max,
        decreases to - k,
    {
        let d = match hex_digit(chars[k]) {
            Some(d) => d,
            None => {
                assert(digits[k - start] == chars@[k as int]);
                return None;
            },
        };
        assert(digits[k - start] == chars@[k as int]);
        assert(digits.take(k - start + 1).drop_last() =~= digits.take(k - start));
        if value > (max - d) / 16 {
            proof {
                assert(value * 16 + d > max) by (nonlinear_arith)
                    requires
                        value > (max - d) / 16,
                        d < 16,
                        max >= 16,
                ;
                if forall|q: int| 0 <= q < digits.len() ==> is_hex_digit(#[trigger] digits[q]) {
                    lemma_hex_value_grows(digits, k - start + 1);
                }
            }
            return None;
        }
        proof {
            assert(value * 16 + d <= max) by (nonlinear_arith)
                requires
                    value <= (max - d) / 16,
                    d < 16,
                    max >= 16,
            ;
        }
        value = value * 16 + d;
        k = k + 1;
    }
    assert(digits.take(k - start) =~= digits);
    Some(value)
}

/// The bytes of a 32-bit word, least significant first — `u32::to_le_bytes`.
pub open spec fn le_bytes(w: nat) -> Seq<u8> {
    seq![(w % 256) as u8, ((w / 256) % 256) as u8, ((w / 65536) % 256) as u8, ((w / 16777216) % 256) as u8]
}

/// One `/proc/net/tcp` address word: eight hexadecimal digits of a value the
/// kernel holds in network byte order, so its bytes are the word's
/// little-endian bytes.
pub open spec fn word_bytes(hex: Seq<char>) -> Option<Seq<u8>> {
    match parse_hex_spec(hex, 0xFFFF_FFFF) {
        Some(v) => Some(le_bytes(v)),
        None => None,
    }
}

/// An IPv4-mapped IPv6 address (`::ffff:a.b.c.d`) as the IPv4 address it
/// maps; any other address unchanged.
pub open spec fn unmapped(b: Seq<u8>) -> Seq<u8> {
    if b.len() == 16 && (forall|k: int| 0 <= k < 10 ==> #[trigger] b[k] == 0) && b[10] == 255 && b[11] == 255 {
        b.subrange(12, 16)
    } else {
        b
    }
}

/// The address one `/proc/net/tcp` local-address field names, as its bytes:
/// 8 hexadecimal digits for IPv4, 32 for IPv6.
pub open spec fn proc_address(hex: Seq<char>) -> Option<Seq<u8>> {
    if hex.len() == 8 {
        word_bytes(hex)
    } else if hex.len() == 32 {
        match (
            word_bytes(hex.subrange(0, 8)),
            word_bytes(hex.subrange(8, 16)),
            word_bytes(hex.subrange(16, 24)),
            word_bytes(hex.subrange(24, 32)),
        ) {
            (Some(a), Some(b), Some(c), Some(d)) => Some(unmapped(a + b + c + d)),
            _ => None,
        }
    } else {
        None
    }
}

/// Whether an address is a loopback one: `127.0.0.0/8` for IPv4, `::1` for
/// IPv6.
pub open spec fn is_loopback_bytes(b: Seq<u8>) -> bool {
    if b.len() == 4 {
        b[0] == 127
    } else {
        (forall|k: int| 0 <= k < 15 ==> #[trigger] b[k] == 0) && b[15] == 1
    }
}

/// Loopback means `127.0.0.0/8` for IPv4, whatever the other three bytes
/// are, and nothing else: an address such as `172.17.0.1` or `192.168.1.5`
/// is reachable beyond this machine. For IPv6 it means `::1` alone.
pub proof fn lemma_loopback_is_127_slash_8_or_ipv6_one(b: Seq<u8>)
    requires
        b.len() == 4 || b.len() == 16,
    ensures
        b.len() == 4 ==> (is_loopback_bytes(b) <==> b[0] == 127),
        b.len() == 16 ==> (is_loopback_bytes(b) <==> b =~= seq![0u8, 0, 0, 0, 0, 0, 0, 0, 0, 0, 0, 0, 0, 0, 0, 1]),
{
    if b.len() == 16 {
        let one = seq![0u8, 0, 0, 0, 0, 0, 0, 0, 0, 0, 0, 0, 0, 0, 0, 1];
        if is_loopback_bytes(b) {
            assert forall|k: int| 0 <= k < 16 implies b[k] == one[k] by {
                if k < 15 {
                    assert(b[k] == 0);
                }
            }
        }
        if b =~= one {
            assert forall|k: int| 0 <= k < 15 implies #[trigger] b[k] == 0 by {
                assert(b[k] == one[k]);
            }
        }
    }
}

/// An IPv4-mapped IPv6 address (`::ffff:a.b.c.d`) is loopback exactly when
/// the IPv4 address it maps is, that is when `a` is 127.
pub proof fn lemma_mapped_address_is_loopback_when_it_maps_127(b: Seq<u8>)
    requires
        b.len() == 16,
        forall|k: int| 0 <= k < 10 ==> #[trigger] b[k] == 0,
        b[10] == 255,
        b[11] == 255,
    ensures
        unmapped(b).len() == 4,
        is_loopback_bytes(unmapped(b)) <==> b[12] == 127,
{
}

/// A `/proc/net/tcp` IPv4 address word names a loopback address exactly
/// when its value's low byte, the address's first byte in network order,
/// is 127: the word `010011AC` (`172.17.0.1`) is not loopback, the word
/// `0100007F` (`127.0.0.1`) is.
pub proof fn lemma_ipv4_word_is_loopback_when_it_starts_with_127(hex: Seq<char>, v: nat)
    requires
        hex.len() == 8,
        parse_hex_spec(hex, 0xFFFF_FFFF) == Some(v),
    ensures
        proc_address(hex) matches Some(a) && a.len() == 4 && (is_loopback_bytes(a) <==> v % 256 == 127),
{
}

/// An address a socket listens on: 4 bytes for IPv4, 16 for IPv6.
#[derive(Debug, Clone, PartialEq, Eq)]
pub struct ListenAddress {
    pub bytes: Vec<u8>,
}

impl ListenAddress {
    /// Whether nothing but this machine can reach the address.
    pub fn is_loopback(&self) -> (b: bool)
        requires
            self.bytes.len() == 4 || self.bytes.len() == 16,
        ensures
            b == is_loopback_bytes(self.bytes@),
    {
        if self.bytes.len() == 4 {
            return self.bytes[0] == 127;
        }
        let mut k: usize = 0;
        while k < 15
            invariant
                0 <= k <= 15,
                self.bytes.len() == 16,
                forall|m: int| 0 <= m < k ==> #[trigger] self.bytes@[m] == 0,
            decreases 15 - k,
        {
            if self.bytes[k] != 0 {
                return false;
            }
            k = k + 1;
        }
        self.bytes[15] == 1
    }
}

fn push_le_bytes(bytes: &mut Vec<u8>, w: u64)
    requires
        w <= 0xFFFF_FFFF,
    ensures
        final(bytes)@ == old(bytes)@ + le_bytes(w as nat),
{
    bytes.push((w % 256) as u8);
    bytes.push(((w / 256) % 256) as u8);
    bytes.push(((w / 65536) % 256) as u8);
    bytes.push(((w / 16777216) % 256) as u8);
    assert(final(bytes)@ =~= old(bytes)@ + le_bytes(w as nat));
}

/// The address `chars[from..to]` names as a `/proc/net/tcp` local address.
fn parse_proc_address(chars: &Vec<char>, from: usize, to: usize) -> (address: Option<ListenAddress>)
    requires
        from <= to <= chars.len(),
    ensures
        match proc_address(chars@.subrange(from as int, to as int)) {
            None => address is None,
            Some(b) => address matches Some(a) && a.bytes@ == b && (b.len() == 4 || b.len() == 16),
        },
{
    let ghost hex = chars@.subrange(from as int, to as int);
    if to - from == 8 {
        let w = match parse_hex(chars, from, to, 0xFFFF_FFFF) {
            Some(w) => w,
            None => return None,
        };
        let mut bytes = Vec::new();
        push_le_bytes(&mut bytes, w);
        assert(bytes@ =~= le_bytes(w as nat));
        return Some(ListenAddress { bytes });
    }
    if to - from != 32 {
        return None;
    }
    let mut bytes: Vec<u8> = Vec::new();
    let mut group: usize = 0;
    while group < 4
        invariant
            group <= 4,
            from + 32 == to <= chars.len(),
            hex == chars@.subrange(from as int, to as int),
            bytes@.len() == 4 * group,
            forall|g: int| 0 <= g < group ==> (#[trigger] word_bytes(hex.subrange(8 * g, 8 * g + 8))) is Some,
            forall|g: int| 0 <= g < group ==> bytes@.subrange(4 * g, 4 * g + 4) == (#[trigger] word_bytes(
                hex.subrange(8 * g, 8 * g + 8),
            ))->Some_0,
        decreases 4 - group,
    {
        let start = from + 8 * group;
        assert(hex.subrange(8 * group, 8 * group + 8) =~= chars@.subrange(start as int, start + 8));
        let w = match parse_hex(chars, start, start + 8, 0xFFFF_FFFF) {
            Some(w) => w,
            None => {
                assert(word_bytes(hex.subrange(8 * group, 8 * group + 8)) is None);
                proof {
                    if group == 0 {
                        assert(word_bytes(hex.subrange(0, 8)) is None);
                    } else if group == 1 {
                        assert(word_bytes(hex.subrange(8, 16)) is None);
                    } else if group == 2 {
                        assert(word_bytes(hex.subrange(16, 24)) is None);
                    } else {
                        assert(word_bytes(hex.subrange(24, 32)) is None);
                    }
                }
                return None;
            },
        };
        let ghost before = bytes@;
        push_le_bytes(&mut bytes, w);
        proof {
            assert forall|g: int| 0 <= g < group + 1 implies bytes@.subrange(4 * g, 4 * g + 4) == (#[trigger] word_bytes(
                hex.subrange(8 * g, 8 * g + 8),
            ))->Some_0 by {
                if g < group {
                    assert(bytes@.subrange(4 * g, 4 * g + 4) =~= before.subrange(4 * g, 4 * g + 4));
                } else {
                    assert(bytes@.subrange(4 * g, 4 * g + 4) =~= le_bytes(w as nat));
                }
            }
        }
        group = group + 1;
    }
    let ghost a = word_bytes(hex.subrange(0, 8))->Some_0;
    let ghost b = word_bytes(hex.subrange(8, 16))->Some_0;
    let ghost c = word_bytes(hex.subrange(16, 24))->Some_0;
    let ghost d = word_bytes(hex.subrange(24, 32))->Some_0;
    assert(word_bytes(hex.subrange(8 * 0int, 8 * 0int + 8)) is Some);
    assert(word_bytes(hex.subrange(8 * 1int, 8 * 1int + 8)) is Some);
    assert(word_bytes(hex.subrange(8 * 2int, 8 * 2int + 8)) is Some);
    assert(word_bytes(hex.subrange(8 * 3int, 8 * 3int + 8)) is Some);
    assert(bytes@.subrange(0, 4) == a);
    assert(bytes@.subrange(4, 8) == b);
    assert(bytes@.subrange(8, 12) == c);
    assert(bytes@.subrange(12, 16) == d);
    assert(bytes@ =~= a + b + c + d);
    let mut mapped = bytes.len() == 16;
    let mut k: usize = 0;
    while k < 10
        invariant
            0 <= k <= 10,
            bytes.len() == 16,
            mapped == forall|m: int| 0 <= m < k ==> #[trigger] bytes@[m] == 0,
        decreases 10 - k,
    {
        if bytes[k] != 0 {
            mapped = false;
        }
        k = k + 1;
    }
    if mapped && bytes[10] == 255 && bytes[11] == 255 {
        let mut v4 = Vec::new();
        v4.push(bytes[12]);
        v4.push(bytes[13]);
        v4.push(bytes[14]);
        v4.push(bytes[15]);
        assert(v4@ =~= bytes@.subrange(12, 16));
        return Some(ListenAddress { bytes: v4 });
    }
    Some(ListenAddress { bytes })
}

/// The address and port one table line shows a socket listening on, or
/// `None` for any line that is not a listening socket — the header, a
/// connected socket, or anything unparseable.
#[verifier::opaque]
pub open spec fn listening_socket_spec(line: Seq<char>) -> Option<(Seq<u8>, u16)> {
    let f = fields(line, 4);
    if f.len() < 4 || f[3] != "0A"@ {
        None
    } else {
        let local = f[1];
        let k = index_of_char(local, ':');
        if k < 0 {
            None
        } else {
            match (proc_address(local.take(k)), parse_hex_spec(local.skip(k + 1), 0xFFFF)) {
                (Some(a), Some(p)) => Some((a, p as u16)),
                _ => None,
            }
        }
    }
}

/// The socket one line of `chars[from..to]` shows listening.
fn listening_socket(chars: &Vec<char>, from: usize, to: usize) -> (socket: Option<(ListenAddress, u16)>)
    requires
        from <= to <= chars.len(),
    ensures
        match listening_socket_spec(chars@.subrange(from as int, to as int)) {
            None => socket is None,
            Some((a, p)) => socket matches Some((address, port)) && address.bytes@ == a && port == p && (a.len()
                == 4 || a.len() == 16),
        },
{
    let ghost line = chars@.subrange(from as int, to as int);
    reveal(listening_socket_spec);
    let (_slot_start, slot_end) = match next_field(chars, from, to) {
        Some(f) => f,
        None => {
            assert(fields(line, 4).len() == 0);
            return None;
        },
    };
    assert(fields(line, 4) == seq![chars@.subrange(_slot_start as int, slot_end as int)] + fields(
        chars@.subrange(slot_end as int, to as int),
        3,
    ));
    let (local_start, local_end) = match next_field(chars, slot_end, to) {
        Some(f) => f,
        None => {
            assert(fields(chars@.subrange(slot_end as int, to as int), 3).len() == 0);
            return None;
        },
    };
    assert(fields(chars@.subrange(slot_end as int, to as int), 3) == seq![
        chars@.subrange(local_start as int, local_end as int),
    ] + fields(chars@.subrange(local_end as int, to as int), 2));
    let (_remote_start, remote_end) = match next_field(chars, local_end, to) {
        Some(f) => f,
        None => {
            assert(fields(chars@.subrange(local_end as int, to as int), 2).len() == 0);
            return None;
        },
    };
    assert(fields(chars@.subrange(local_end as int, to as int), 2) == seq![
        chars@.subrange(_remote_start as int, remote_end as int),
    ] + fields(chars@.subrange(remote_end as int, to as int), 1));
    let (state_start, state_end) = match next_field(chars, remote_end, to) {
        Some(f) => f,
        None => {
            assert(fields(chars@.subrange(remote_end as int, to as int), 1).len() == 0);
            return None;
        },
    };
    assert(fields(chars@.subrange(remote_end as int, to as int), 1) == seq![
        chars@.subrange(state_start as int, state_end as int),
    ] + fields(chars@.subrange(state_end as int, to as int), 0));
    let ghost f = fields(line, 4);
    assert(f.len() == 4);
    assert(f[1] == chars@.subrange(local_start as int, local_end as int));
    assert(f[3] == chars@.subrange(state_start as int, state_end as int));
    proof {
        reveal_strlit("0A");
    }
    if !(state_end - state_start == 2 && chars[state_start] == '0' && chars[state_start + 1] == 'A') {
        proof {
            if f[3] == "0A"@ {
                assert(f[3][0] == chars@[state_start as int]);
                assert(f[3][1] == chars@[state_start + 1]);
            }
        }
        return None;
    }
    assert(f[3] =~= "0A"@);
    let ghost local = f[1];
    let mut colon = local_start;
    while colon < local_end && chars[colon] != ':'
        invariant
            local_start <= colon <= local_end <= chars.len(),
            forall|k: int| local_start <= k < colon ==> chars@[k] != ':',
        decreases local_end - colon,
    {
        colon = colon + 1;
    }
    proof {
        assert forall|k: int| 0 <= k < colon - local_start implies local[k] != ':' by {
            assert(local[k] == chars@[local_start + k]);
        }
        if colon < local_end {
            assert(local[colon - local_start] == chars@[colon as int]);
        }
        lemma_index_of_char(local, ':', colon - local_start);
    }
    if colon == local_end {
        return None;
    }
    assert(local.take(colon - local_start) =~= chars@.subrange(local_start as int, colon as int));
    assert(local.skip(colon - local_start + 1) =~= chars@.subrange(colon + 1, local_end as int));
    let address = parse_proc_address(chars, local_start, colon);
    let port = parse_hex(chars, colon + 1, local_end, 0xFFFF);
    match (address, port) {
        (Some(address), Some(port)) => Some((address, port as u16)),
        _ => None,
    }
}

/// A socket as the loopback check sees it: whether its address is a
/// loopback one, and its port.
pub open spec fn socket_view(socket: Option<(Seq<u8>, u16)>) -> Seq<(bool, u16)> {
    match socket {
        Some((a, p)) => seq![(is_loopback_bytes(a), p)],
        None => Seq::empty(),
    }
}

/// Every listening socket a table shows, one line at a time. Lines are
/// split at `\n`; a trailing `\r` is whitespace to the field splitting, so
/// it changes no line's fields.
#[verifier::opaque]
pub open spec fn text_sockets(text: Seq<char>) -> Seq<(bool, u16)>
    decreases text.len(),
{
    let k = index_of_char(text, '\n');
    if k < 0 || k >= text.len() {
        socket_view(listening_socket_spec(text))
    } else {
        socket_view(listening_socket_spec(text.take(k))) + text_sockets(text.skip(k + 1))
    }
}

/// Every listening socket all of `tables` show, table by table.
pub open spec fn table_sockets(tables: Seq<String>) -> Seq<(bool, u16)>
    decreases tables.len(),
{
    if tables.len() == 0 {
        Seq::empty()
    } else {
        table_sockets(tables.drop_last()) + text_sockets(tables.last()@)
    }
}

/// Whether `port` is listened on, and only ever on loopback addresses.
pub open spec fn loopback_only(sockets: Seq<(bool, u16)>, port: u16) -> bool {
    &&& exists|i: int| 0 <= i < sockets.len() && (#[trigger] sockets[i]).1 == port
    &&& forall|i: int| 0 <= i < sockets.len() && (#[trigger] sockets[i]).1 == port ==> sockets[i].0
}

proof fn lemma_text_sockets_step(rest: Seq<char>, j: int)
    requires
        0 <= j <= rest.len(),
        index_of_char(rest, '\n') == if j == rest.len() { -1 } else { j },
    ensures
        j < rest.len() ==> text_sockets(rest) == socket_view(listening_socket_spec(rest.take(j))) + text_sockets(
            rest.skip(j + 1),
        ),
        j == rest.len() ==> text_sockets(rest) == socket_view(listening_socket_spec(rest)),
{
    reveal(text_sockets);
}

/// Where the line starting at `start` ends: the next `\n`, or the end.
fn line_end(chars: &Vec<char>, start: usize) -> (end: usize)
    requires
        start <= chars.len(),
    ensures
        start <= end <= chars.len(),
        index_of_char(chars@.skip(start as int), '\n') == if end == chars.len() { -1 } else { end - start },
{
    let len = chars.len();
    let ghost rest = chars@.skip(start as int);
    let mut end = start;
    while end < len && chars[end] != '\n'
        invariant
            start <= end <= len == chars.len(),
            forall|k: int| start <= k < end ==> chars@[k] != '\n',
        decreases len - end,
    {
        end = end + 1;
    }
    proof {
        assert forall|k: int| 0 <= k < end - start implies rest[k] != '\n' by {
            assert(rest[k] == chars@[start + k]);
        }
        if end < len {
            assert(rest[end - start] == chars@[end as int]);
        }
        lemma_index_of_char(rest, '\n', end - start);
    }
    end
}

/// Appends the listening sockets of one table to `sockets`.
fn collect_sockets(table: &String, sockets: &mut Vec<(bool, u16)>)
    ensures
        final(sockets)@ == old(sockets)@ + text_sockets(table@),
{
    let chars = chars_of(table.as_str());
    let len = chars.len();
    let mut start: usize = 0;
    let ghost total = old(sockets)@ + text_sockets(table@);
    assert(chars@.skip(0) =~= chars@);
    loop
        invariant
            start <= len,
            len == chars.len(),
            total == sockets@ + text_sockets(chars@.skip(start as int)),
            total == old(sockets)@ + text_sockets(table@),
        decreases len - start,
    {
        let ghost rest = chars@.skip(start as int);
        let end = line_end(&chars, start);
        proof {
            lemma_text_sockets_step(rest, end - start);
        }
        let ghost before = sockets@;
        let ghost line = chars@.subrange(start as int, end as int);
        assert(rest.take(end - start) =~= line);
        match listening_socket(&chars, start, end) {
            Some((address, port)) => {
                let loopback = address.is_loopback();
                sockets.push((loopback, port));
            },
            None => {},
        }
        assert(sockets@ =~= before + socket_view(listening_socket_spec(line)));
        if end == len {
            assert(rest =~= line);
            assert(sockets@ == total);
            return;
        }
        proof {
            assert(rest.skip(end - start + 1) =~= chars@.skip(end + 1));
            assert(before + (socket_view(listening_socket_spec(line)) + text_sockets(chars@.skip(end + 1))) =~= sockets@
                + text_sockets(chars@.skip(end + 1)));
        }
        start = end + 1;
    }
}

/// Which of `ports` the given `/proc/net/tcp`-format `tables` show
/// listening on loopback addresses only. A port nothing listens on is not
/// reported: that is a proxy that is not running, a different complaint.
pub fn loopback_only_ports_in(tables: &Vec<String>, ports: &BTreeSet<u16>) -> (found: BTreeSet<u16>)
    ensures
        forall|p: u16| #[trigger] found@.contains(p) <==> ports@.contains(p) && loopback_only(
            table_sockets(tables@),
            p,
        ),
{
    let mut sockets: Vec<(bool, u16)> = Vec::new();
    let mut t: usize = 0;
    while t < tables.len()
        invariant
            t <= tables.len(),
            sockets@ == table_sockets(tables@.take(t as int)),
        decreases tables.len() - t,
    {
        collect_sockets(&tables[t], &mut sockets);
        assert(tables@.take(t + 1).drop_last() =~= tables@.take(t as int));
        t = t + 1;
    }
    assert(tables@.take(t as int) =~= tables@);
    let ghost all = sockets@;
    let mut found: BTreeSet<u16> = BTreeSet::new();
    let mut j: usize = 0;
    while j < sockets.len()
        invariant
            j <= sockets.len(),
            sockets@ == all,
            forall|p: u16| #[trigger] found@.contains(p) <==> (exists|k: int| 0 <= k < j && (#[trigger] all[k]).1 == p)
                && ports@.contains(p) && loopback_only(all, p),
        decreases sockets.len() - j,
    {
        let port = sockets[j].1;
        let mut only_loopback = true;
        let mut i: usize = 0;
        while i < sockets.len()
            invariant
                i <= sockets.len(),
                sockets@ == all,
                only_loopback == forall|k: int| 0 <= k < i && (#[trigger] all[k]).1 == port ==> all[k].0,
            decreases sockets.len() - i,
        {
            let (loopback, listen_port) = sockets[i];
            if listen_port == port && !loopback {
                only_loopback = false;
            }
            i = i + 1;
        }
        if only_loopback && ports.contains(&port) {
            found.insert(port);
        }
        proof {
            assert(all[j as int].1 == port);
            assert forall|p: u16| #[trigger] found@.contains(p) <==> (exists|k: int| 0 <= k < j + 1 && (#[trigger] all[k]).1 == p)
                && ports@.contains(p) && loopback_only(all, p) by {
                if p == port {
                    assert(all[j as int].1 == p);
                }
            }
        }
        j = j + 1;
    }
    found
}

} // verus!
