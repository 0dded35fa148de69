//! The newline-JSON wire format of the record log and the source registry.
//!
//! Both files hold one JSON object per line with a fixed, terse schema that
//! is part of the on-disk contract. This module renders and reads those
//! lines byte by byte: decimal numbers, JSON string escaping, and the
//! base64 rendering of raw EXIF bytes.
use vstd::prelude::*;

verus! {

/// The UTF-8 bytes of a literal.
pub open spec fn lit_bytes(s: &str) -> Seq<u8> {
    vstd::utf8::encode_utf8(s@)
}

/// Whether a byte is a decimal digit.
pub open spec fn is_digit_byte(b: u8) -> bool {
    48 <= b <= 57
}

/// The decimal rendering of a natural number, as bytes.
pub open spec fn dec_bytes(n: nat) -> Seq<u8>
    decreases n,
{
    if n < 10 {
        seq![(48 + n) as u8]
    } else {
        dec_bytes(n / 10).push((48 + n % 10) as u8)
    }
}

/// The decimal rendering of an integer, as bytes: a minus sign before the
/// magnitude when negative.
pub open spec fn dec_bytes_int(n: int) -> Seq<u8> {
    if n >= 0 {
        dec_bytes(n as nat)
    } else {
        seq![45u8] + dec_bytes((-n) as nat)
    }
}

/// The lowercase hexadecimal digit byte for a value below sixteen.
pub open spec fn hex_lower_byte(d: int) -> u8 {
    if d < 10 {
        (48 + d) as u8
    } else {
        (87 + d) as u8
    }
}

/// The JSON escape of one string byte: quote and backslash get a
/// backslash, the five named control escapes their letter, any other
/// control byte a `\u00..` escape, and everything else stands for itself.
/// UTF-8 continuation bytes are above the control range, so escaping works
/// bytewise.
pub open spec fn esc_byte(b: u8) -> Seq<u8> {
    if b == 34 {
        seq![92u8, 34u8]
    } else if b == 92 {
        seq![92u8, 92u8]
    } else if b == 8 {
        seq![92u8, 98u8]
    } else if b == 9 {
        seq![92u8, 116u8]
    } else if b == 10 {
        seq![92u8, 110u8]
    } else if b == 12 {
        seq![92u8, 102u8]
    } else if b == 13 {
        seq![92u8, 114u8]
    } else if b < 32 {
        seq![92u8, 117u8, 48u8, 48u8, hex_lower_byte(b as int / 16), hex_lower_byte(b as int % 16)]
    } else {
        seq![b]
    }
}

/// The JSON escape of a whole byte string.
pub open spec fn json_escaped(s: Seq<u8>) -> Seq<u8>
    decreases s.len(),
{
    if s.len() == 0 {
        Seq::empty()
    } else {
        esc_byte(s[0]) + json_escaped(s.drop_first())
    }
}

/// The base64 alphabet.
pub open spec fn b64_byte(v: int) -> u8
    recommends
        0 <= v < 64,
{
    if v < 26 {
        (65 + v) as u8
    } else if v < 52 {
        (97 + v - 26) as u8
    } else if v < 62 {
        (48 + v - 52) as u8
    } else if v == 62 {
        43u8
    } else {
        47u8
    }
}

/// The four base64 characters of one three-byte group.
pub open spec fn b64_group3(b0: u8, b1: u8, b2: u8) -> Seq<u8> {
    seq![
        b64_byte(b0 as int / 4),
        b64_byte((b0 as int % 4) * 16 + b1 as int / 16),
        b64_byte((b1 as int % 16) * 4 + b2 as int / 64),
        b64_byte(b2 as int % 64),
    ]
}

/// The standard base64 rendering of a byte string, with `=` padding.
pub open spec fn b64(s: Seq<u8>) -> Seq<u8>
    decreases s.len(),
{
    if s.len() == 0 {
        Seq::empty()
    } else if s.len() == 1 {
        seq![b64_byte(s[0] as int / 4), b64_byte((s[0] as int % 4) * 16), 61u8, 61u8]
    } else if s.len() == 2 {
        seq![
            b64_byte(s[0] as int / 4),
            b64_byte((s[0] as int % 4) * 16 + s[1] as int / 16),
            b64_byte((s[1] as int % 16) * 4),
            61u8,
        ]
    } else {
        b64_group3(s[0], s[1], s[2]) + b64(s.subrange(3, s.len() as int))
    }
}

/// Base64 distributes over a split at a group boundary.
proof fn lemma_b64_concat(a: Seq<u8>, b: Seq<u8>)
    requires
        a.len() % 3 == 0,
    ensures
        b64(a + b) == b64(a) + b64(b),
    decreases a.len(),
{
    if a.len() == 0 {
        assert(a + b =~= b);
        assert(b64(a) + b64(b) =~= b64(b));
    } else {
        assert(a.len() >= 3);
        let s = a + b;
        if b.len() == 0 {
            assert(s =~= a);
            assert(b64(a) + b64(b) =~= b64(a));
        } else {
            assert(s.len() >= 3);
            assert(s[0] == a[0] && s[1] == a[1] && s[2] == a[2]);
            assert(s.subrange(3, s.len() as int) =~= a.subrange(3, a.len() as int) + b);
            lemma_b64_concat(a.subrange(3, a.len() as int), b);
            assert(b64(a) == b64_group3(a[0], a[1], a[2]) + b64(a.subrange(3, a.len() as int)));
            assert(b64(s) =~= b64(a) + b64(b));
        }
    }
}

/// Escaping distributes over appending one byte.
proof fn lemma_escaped_push(a: Seq<u8>, b: u8)
    ensures
        json_escaped(a.push(b)) == json_escaped(a) + esc_byte(b),
    decreases a.len(),
{
    if a.len() == 0 {
        assert(a.push(b)[0] == b);
        assert(a.push(b).drop_first() =~= Seq::<u8>::empty());
        assert(json_escaped(Seq::<u8>::empty()) =~= Seq::<u8>::empty());
        assert(json_escaped(a.push(b)) == esc_byte(b) + json_escaped(a.push(b).drop_first()));
        assert(json_escaped(a.push(b)) =~= json_escaped(a) + esc_byte(b));
    } else {
        assert(a.push(b)[0] == a[0]);
        assert(a.push(b).drop_first() =~= a.drop_first().push(b));
        lemma_escaped_push(a.drop_first(), b);
        assert(json_escaped(a.push(b)) == esc_byte(a[0]) + json_escaped(a.drop_first().push(b)));
        assert(json_escaped(a) == esc_byte(a[0]) + json_escaped(a.drop_first()));
        assert(json_escaped(a.push(b)) =~= json_escaped(a) + esc_byte(b));
    }
}

/// Appends `s` to `out`.
pub fn push_bytes(out: &mut Vec<u8>, s: &[u8])
    ensures
        final(out)@ == old(out)@ + s@,
{
    let mut i: usize = 0;
    while i < s.len()
        invariant
            i <= s@.len(),
            out@ == old(out)@ + s@.subrange(0, i as int),
        decreases s@.len() - i,
    {
        out.push(s[i]);
        proof {
            assert(out@ =~= old(out)@ + s@.subrange(0, i + 1));
        }
        i = i + 1;
    }
    proof {
        assert(out@ =~= old(out)@ + s@);
    }
}

/// Appends the UTF-8 bytes of a literal to `out`.
pub fn push_lit(out: &mut Vec<u8>, s: &str)
    ensures
        final(out)@ == old(out)@ + lit_bytes(s),
{
    push_bytes(out, s.as_bytes());
}

/// Appends the decimal rendering of `n` to `out`.
pub fn push_u64_dec(out: &mut Vec<u8>, n: u64)
    ensures
        final(out)@ == old(out)@ + dec_bytes(n as nat),
    decreases n,
{
    if n < 10 {
        out.push(48 + n as u8);
        proof {
            assert(final(out)@ =~= old(out)@ + dec_bytes(n as nat));
        }
    } else {
        push_u64_dec(out, n / 10);
        out.push(48 + (n % 10) as u8);
        proof {
            assert(final(out)@ =~= old(out)@ + dec_bytes(n as nat));
        }
    }
}

/// Appends the decimal rendering of a signed value to `out`.
pub fn push_i64_dec(out: &mut Vec<u8>, n: i64)
    ensures
        final(out)@ == old(out)@ + dec_bytes_int(n as int),
{
    if n >= 0 {
        push_u64_dec(out, n as u64);
    } else {
        out.push(45);
        let mag: u64 = ((-(n + 1)) as u64) + 1;
        proof {
            assert(mag == -(n as int));
        }
        push_u64_dec(out, mag);
        proof {
            assert(final(out)@ =~= old(out)@ + dec_bytes_int(n as int));
        }
    }
}

/// Appends the JSON escape of `s` to `out`.
pub fn push_escaped(out: &mut Vec<u8>, s: &[u8])
    ensures
        final(out)@ == old(out)@ + json_escaped(s@),
{
    let mut i: usize = 0;
    while i < s.len()
        invariant
            i <= s@.len(),
            out@ == old(out)@ + json_escaped(s@.subrange(0, i as int)),
        decreases s@.len() - i,
    {
        let b = s[i];
        if b == 34 {
            out.push(92);
            out.push(34);
        } else if b == 92 {
            out.push(92);
            out.push(92);
        } else if b == 8 {
            out.push(92);
            out.push(98);
        } else if b == 9 {
            out.push(92);
            out.push(116);
        } else if b == 10 {
            out.push(92);
            out.push(110);
        } else if b == 12 {
            out.push(92);
            out.push(102);
        } else if b == 13 {
            out.push(92);
            out.push(114);
        } else if b < 32 {
            out.push(92);
            out.push(117);
            out.push(48);
            out.push(48);
            let hi = b / 16;
            let lo = b % 16;
            out.push(if hi < 10 { 48 + hi } else { 87 + hi });
            out.push(if lo < 10 { 48 + lo } else { 87 + lo });
        } else {
            out.push(b);
        }
        proof {
            lemma_escaped_push(s@.subrange(0, i as int), s@[i as int]);
            assert(s@.subrange(0, i as int).push(s@[i as int]) =~= s@.subrange(0, i + 1));
            assert(out@ =~= old(out)@ + json_escaped(s@.subrange(0, i + 1)));
        }
        i = i + 1;
    }
    proof {
        assert(s@.subrange(0, s@.len() as int) =~= s@);
    }
}

fn b64_byte_exec(v: u8) -> (r: u8)
    requires
        v < 64,
    ensures
        r == b64_byte(v as int),
{
    if v < 26 {
        65 + v
    } else if v < 52 {
        97 + v - 26
    } else if v < 62 {
        48 + v - 52
    } else if v == 62 {
        43
    } else {
        47
    }
}

/// Appends the base64 rendering of `s` to `out`.
pub fn push_b64(out: &mut Vec<u8>, s: &[u8])
    ensures
        final(out)@ == old(out)@ + b64(s@),
{
    let n = s.len();
    let mut i: usize = 0;
    while n - i >= 3
        invariant
            i <= n,
            i % 3 == 0,
            n == s@.len(),
            out@ == old(out)@ + b64(s@.subrange(0, i as int)),
        decreases n - i,
    {
        let b0 = s[i];
        let b1 = s[i + 1];
        let b2 = s[i + 2];
        out.push(b64_byte_exec(b0 / 4));
        out.push(b64_byte_exec((b0 % 4) * 16 + b1 / 16));
        out.push(b64_byte_exec((b1 % 16) * 4 + b2 / 64));
        out.push(b64_byte_exec(b2 % 64));
        proof {
            lemma_b64_concat(s@.subrange(0, i as int), s@.subrange(i as int, i + 3));
            assert(s@.subrange(0, i as int) + s@.subrange(i as int, i + 3) =~= s@.subrange(
                0,
                i + 3,
            ));
            assert(s@.subrange(i as int, i + 3)[0] == b0 && s@.subrange(i as int, i + 3)[1] == b1
                && s@.subrange(i as int, i + 3)[2] == b2);
            assert(s@.subrange(i as int, i + 3).subrange(3, 3) =~= Seq::<u8>::empty());
            assert(b64(Seq::<u8>::empty()) =~= Seq::<u8>::empty());
            assert(b64(s@.subrange(i as int, i + 3)) == b64_group3(b0, b1, b2) + b64(
                s@.subrange(i as int, i + 3).subrange(3, 3),
            ));
            assert(b64(s@.subrange(i as int, i + 3)) =~= b64_group3(b0, b1, b2));
            assert(out@ =~= old(out)@ + b64(s@.subrange(0, i + 3)));
        }
        i = i + 3;
    }
    proof {
        lemma_b64_concat(s@.subrange(0, i as int), s@.subrange(i as int, n as int));
        assert(s@.subrange(0, i as int) + s@.subrange(i as int, n as int) =~= s@);
    }
    if n - i == 1 {
        let b0 = s[i];
        out.push(b64_byte_exec(b0 / 4));
        out.push(b64_byte_exec((b0 % 4) * 16));
        out.push(61);
        out.push(61);
        proof {
            assert(s@.subrange(i as int, n as int)[0] == b0);
            assert(out@ =~= old(out)@ + b64(s@));
        }
    } else if n - i == 2 {
        let b0 = s[i];
        let b1 = s[i + 1];
        out.push(b64_byte_exec(b0 / 4));
        out.push(b64_byte_exec((b0 % 4) * 16 + b1 / 16));
        out.push(b64_byte_exec((b1 % 16) * 4));
        out.push(61);
        proof {
            assert(s@.subrange(i as int, n as int)[0] == b0 && s@.subrange(i as int, n as int)[1]
                == b1);
            assert(out@ =~= old(out)@ + b64(s@));
        }
    } else {
        proof {
            assert(i == n);
            assert(s@.subrange(i as int, n as int).len() == 0);
            assert(out@ =~= old(out)@ + b64(s@));
        }
    }
}

} // verus!
