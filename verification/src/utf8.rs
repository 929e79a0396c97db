//! UTF-8, the encoding of every Rust string: what a text's bytes are, and
//! that no two texts share them.

use vstd::prelude::*;

use crate::text::chars_of;

verus! {

/// The UTF-8 encoding of one character.
pub open spec fn utf8_char(c: char) -> Seq<u8> {
    let n = c as int;
    if n < 0x80 {
        seq![n as u8]
    } else if n < 0x800 {
        seq![(0xC0 + n / 64) as u8, (0x80 + n % 64) as u8]
    } else if n < 0x10000 {
        seq![(0xE0 + n / 4096) as u8, (0x80 + (n / 64) % 64) as u8, (0x80 + n % 64) as u8]
    } else {
        seq![
            (0xF0 + n / 262144) as u8,
            (0x80 + (n / 4096) % 64) as u8,
            (0x80 + (n / 64) % 64) as u8,
            (0x80 + n % 64) as u8,
        ]
    }
}

/// The UTF-8 encoding of a text: what `str::as_bytes` holds.
pub open spec fn utf8(s: Seq<char>) -> Seq<u8>
    decreases s.len(),
{
    if s.len() == 0 {
        Seq::empty()
    } else {
        utf8(s.drop_last()) + utf8_char(s.last())
    }
}

/// Appends the UTF-8 encoding of `c`.
pub fn push_utf8(bytes: &mut Vec<u8>, c: char)
    ensures
        final(bytes)@ == old(bytes)@ + utf8_char(c),
{
    let n = c as u32;
    if n < 0x80 {
        bytes.push(n as u8);
    } else if n < 0x800 {
        bytes.push((0xC0 + n / 64) as u8);
        bytes.push((0x80 + n % 64) as u8);
    } else if n < 0x10000 {
        bytes.push((0xE0 + n / 4096) as u8);
        bytes.push((0x80 + (n / 64) % 64) as u8);
        bytes.push((0x80 + n % 64) as u8);
    } else {
        bytes.push((0xF0 + n / 262144) as u8);
        bytes.push((0x80 + (n / 4096) % 64) as u8);
        bytes.push((0x80 + (n / 64) % 64) as u8);
        bytes.push((0x80 + n % 64) as u8);
    }
    assert(final(bytes)@ =~= old(bytes)@ + utf8_char(c));
}

/// The bytes of `s`, UTF-8 encoded.
pub fn utf8_bytes(s: &str) -> (bytes: Vec<u8>)
    ensures
        bytes@ == utf8(s@),
{
    let chars = chars_of(s);
    let mut bytes: Vec<u8> = Vec::new();
    let mut i: usize = 0;
    while i < chars.len()
        invariant
            i <= chars.len(),
            chars@ == s@,
            bytes@ == utf8(s@.take(i as int)),
        decreases chars.len() - i,
    {
        push_utf8(&mut bytes, chars[i]);
        assert(s@.take(i + 1).drop_last() =~= s@.take(i as int));
        i = i + 1;
    }
    assert(s@.take(i as int) =~= s@);
    bytes
}

/// The UTF-8 encoding of a character is one to four bytes: a leading byte
/// that is never a continuation byte, then continuation bytes only.
pub proof fn lemma_utf8_char_shape(c: char)
    ensures
        1 <= utf8_char(c).len() <= 4,
        utf8_char(c)[0] < 0x80 || utf8_char(c)[0] >= 0xC0,
        forall|i: int| 1 <= i < utf8_char(c).len() ==> 0x80 <= #[trigger] utf8_char(c)[i] < 0xC0,
{
}

/// Two characters with the same UTF-8 encoding are the same character.
pub proof fn lemma_utf8_char_injective(c: char, d: char)
    requires
        utf8_char(c) == utf8_char(d),
    ensures
        c == d,
{
    let n = c as int;
    let m = d as int;
    let e = utf8_char(c);
    if n < 0x80 {
        assert(e[0] == n);
    } else if n < 0x800 {
        assert(e.len() == 2);
        assert(n == 64 * (n / 64) + n % 64);
        assert(m == 64 * (m / 64) + m % 64);
    } else if n < 0x10000 {
        assert(e.len() == 3);
        assert(n == 4096 * (n / 4096) + 64 * ((n / 64) % 64) + n % 64);
        assert(m == 4096 * (m / 4096) + 64 * ((m / 64) % 64) + m % 64);
    } else {
        assert(e.len() == 4);
        assert(n == 262144 * (n / 262144) + 4096 * ((n / 4096) % 64) + 64 * ((n / 64) % 64) + n % 64);
        assert(m == 262144 * (m / 262144) + 4096 * ((m / 4096) % 64) + 64 * ((m / 64) % 64) + m % 64);
    }
    assert(n == m);
}

/// A text never encodes to fewer bytes than it has characters.
pub proof fn lemma_utf8_len(s: Seq<char>)
    ensures
        utf8(s).len() >= s.len(),
    decreases s.len(),
{
    if s.len() > 0 {
        lemma_utf8_len(s.drop_last());
        lemma_utf8_char_shape(s.last());
    }
}

/// UTF-8 is unambiguous: two texts with the same encoding are the same
/// text.
pub proof fn lemma_utf8_injective(a: Seq<char>, b: Seq<char>)
    requires
        utf8(a) == utf8(b),
    ensures
        a == b,
    decreases a.len() + b.len(),
{
    lemma_utf8_len(a);
    lemma_utf8_len(b);
    if a.len() == 0 || b.len() == 0 {
        assert(a =~= b);
    } else {
        let ea = utf8_char(a.last());
        let eb = utf8_char(b.last());
        let pa = utf8(a.drop_last());
        let pb = utf8(b.drop_last());
        let u = utf8(a);
        lemma_utf8_char_shape(a.last());
        lemma_utf8_char_shape(b.last());
        assert(u == pa + ea);
        assert(u == pb + eb);
        if ea.len() < eb.len() {
            let k = u.len() - ea.len();
            assert(u[k] == ea[0]);
            assert(u[k] == eb[eb.len() - ea.len()]);
        }
        if eb.len() < ea.len() {
            let k = u.len() - eb.len();
            assert(u[k] == eb[0]);
            assert(u[k] == ea[ea.len() - eb.len()]);
        }
        assert(ea.len() == eb.len());
        assert(ea =~= u.subrange(pa.len() as int, u.len() as int));
        assert(eb =~= u.subrange(pb.len() as int, u.len() as int));
        lemma_utf8_char_injective(a.last(), b.last());
        assert(pa =~= u.subrange(0, pa.len() as int));
        assert(pb =~= u.subrange(0, pb.len() as int));
        lemma_utf8_injective(a.drop_last(), b.drop_last());
        assert(a =~= a.drop_last().push(a.last()));
        assert(b =~= b.drop_last().push(b.last()));
    }
}

} // verus!
