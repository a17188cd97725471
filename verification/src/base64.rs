//! Standard base64 encoding (RFC 4648 alphabet, `=` padding).
use vstd::prelude::*;
use crate::text::push_char;

verus! {

/// The character that encodes a 6-bit value.
pub open spec fn sextet_char_spec(v: int) -> char {
    if v < 26 {
        (65 + v) as char
    } else if v < 52 {
        (97 + (v - 26)) as char
    } else if v < 62 {
        (48 + (v - 52)) as char
    } else if v == 62 {
        '+'
    } else {
        '/'
    }
}

/// The four characters that encode a group of one to three bytes.
pub open spec fn encode_group(g: Seq<u8>) -> Seq<char> {
    let b0 = g[0] as int;
    let b1 = if g.len() > 1 { g[1] as int } else { 0 };
    let b2 = if g.len() > 2 { g[2] as int } else { 0 };
    seq![
        sextet_char_spec(b0 / 4),
        sextet_char_spec((b0 % 4) * 16 + b1 / 16),
        if g.len() > 1 { sextet_char_spec((b1 % 16) * 4 + b2 / 64) } else { '=' },
        if g.len() > 2 { sextet_char_spec(b2 % 64) } else { '=' },
    ]
}

/// Base64 encoding of a byte sequence: each group of three bytes, the last
/// possibly shorter, becomes four characters.
pub open spec fn base64_spec(data: Seq<u8>) -> Seq<char>
    decreases data.len(),
{
    if data.len() == 0 {
        Seq::empty()
    } else if data.len() <= 3 {
        encode_group(data)
    } else {
        encode_group(data.take(3)) + base64_spec(data.skip(3))
    }
}

/// Encoding a concatenation whose first part is a whole number of groups
/// encodes the parts separately.
pub proof fn lemma_base64_append(a: Seq<u8>, b: Seq<u8>)
    requires
        a.len() % 3 == 0,
    ensures
        base64_spec(a + b) == base64_spec(a) + base64_spec(b),
    decreases a.len(),
{
    if a.len() == 0 {
        assert(a + b =~= b);
    } else {
        let ab = a + b;
        assert(ab.take(3) =~= a.take(3));
        assert(ab.skip(3) =~= a.skip(3) + b);
        lemma_base64_append(a.skip(3), b);
        if a.len() == 3 {
            assert(a.skip(3) =~= Seq::<u8>::empty());
            assert(a.take(3) =~= a);
            assert(a.skip(3) + b =~= b);
            if b.len() == 0 {
                assert(ab =~= a);
            }
        } else {
            if b.len() == 0 {
                assert(ab =~= a);
            }
        }
    }
}

/// The encoding has four characters per started group of three bytes.
pub proof fn lemma_base64_len(data: Seq<u8>)
    ensures
        base64_spec(data).len() == (data.len() + 2) / 3 * 4,
    decreases data.len(),
{
    if data.len() > 3 {
        lemma_base64_len(data.skip(3));
    }
}

fn sextet_char(v: u32) -> (c: char)
    requires
        v < 64,
    ensures
        c == sextet_char_spec(v as int),
{
    if v < 26 {
        ((65 + v) as u8) as char
    } else if v < 52 {
        ((97 + (v - 26)) as u8) as char
    } else if v < 62 {
        ((48 + (v - 52)) as u8) as char
    } else if v == 62 {
        '+'
    } else {
        '/'
    }
}

/// Appends the encoding of one group (`data[i..i+len]`, `1 <= len <= 3`).
fn push_group(out: &mut String, data: &[u8], i: usize, len: usize)
    requires
        1 <= len <= 3,
        i + len <= data@.len(),
    ensures
        final(out)@ == old(out)@ + encode_group(data@.subrange(i as int, (i + len) as int)),
{
    let b0: u32 = data[i] as u32;
    let b1: u32 = if len > 1 { data[i + 1] as u32 } else { 0 };
    let b2: u32 = if len > 2 { data[i + 2] as u32 } else { 0 };
    let triple: u32 = (b0 << 16) | (b1 << 8) | b2;
    let s0 = (triple >> 18) & 63;
    let s1 = (triple >> 12) & 63;
    let s2 = (triple >> 6) & 63;
    let s3 = triple & 63;
    assert(s0 == b0 / 4 && s1 == (b0 % 4) * 16 + b1 / 16 && s2 == (b1 % 16) * 4 + b2 / 64 && s3
        == b2 % 64) by (bit_vector)
        requires
            b0 < 256 && b1 < 256 && b2 < 256,
            triple == (b0 << 16) | (b1 << 8) | b2,
            s0 == (triple >> 18) & 63,
            s1 == (triple >> 12) & 63,
            s2 == (triple >> 6) & 63,
            s3 == triple & 63,
    ;
    let ghost before = out@;
    push_char(out, sextet_char(s0));
    push_char(out, sextet_char(s1));
    if len > 1 {
        push_char(out, sextet_char(s2));
    } else {
        push_char(out, '=');
    }
    if len > 2 {
        push_char(out, sextet_char(s3));
    } else {
        push_char(out, '=');
    }
    assert(out@ =~= before + encode_group(data@.subrange(i as int, (i + len) as int)));
}

/// Encodes `data` in base64 with the standard alphabet and `=` padding.
pub fn base64_encode(data: &[u8]) -> (out: String)
    ensures
        out@ == base64_spec(data@),
        out@.len() == (data@.len() + 2) / 3 * 4,
{
    let mut out = String::new();
    let n = data.len();
    let mut i: usize = 0;
    proof {
        assert(data@.take(0) =~= Seq::<u8>::empty());
        lemma_base64_len(data@);
    }
    while i < n
        invariant
            n == data@.len(),
            i <= n,
            i % 3 == 0 || i == n,
            out@ == base64_spec(data@.take(i as int)),
        decreases n - i,
    {
        let len: usize = if n - i >= 3 { 3 } else { n - i };
        push_group(&mut out, data, i, len);
        proof {
            let g = data@.subrange(i as int, (i + len) as int);
            assert(data@.take((i + len) as int) =~= data@.take(i as int) + g);
            lemma_base64_append(data@.take(i as int), g);
            assert(base64_spec(g) == encode_group(g));
        }
        i = i + len;
    }
    proof {
        assert(data@.take(n as int) =~= data@);
    }
    out
}

/// The 6-bit value of a base64 character (0 for any other character).
pub open spec fn sextet_value(c: char) -> int {
    if 'A' <= c <= 'Z' {
        c as int - 65
    } else if 'a' <= c <= 'z' {
        c as int - 71
    } else if '0' <= c <= '9' {
        c as int + 4
    } else if c == '+' {
        62
    } else if c == '/' {
        63
    } else {
        0
    }
}

/// The bytes of one four-character group: three, or fewer when it ends in `=` padding.
pub open spec fn decode_group(q: Seq<char>) -> Seq<u8> {
    let v0 = sextet_value(q[0]);
    let v1 = sextet_value(q[1]);
    let v2 = sextet_value(q[2]);
    let v3 = sextet_value(q[3]);
    let b0 = (v0 * 4 + v1 / 16) as u8;
    let b1 = ((v1 % 16) * 16 + v2 / 4) as u8;
    let b2 = ((v2 % 4) * 64 + v3) as u8;
    if q[2] == '=' {
        seq![b0]
    } else if q[3] == '=' {
        seq![b0, b1]
    } else {
        seq![b0, b1, b2]
    }
}

/// Standard (RFC 4648) base64 decoding of a text made of four-character groups.
pub open spec fn base64_decode_spec(s: Seq<char>) -> Seq<u8>
    decreases s.len(),
{
    if s.len() < 4 {
        Seq::empty()
    } else {
        decode_group(s.take(4)) + base64_decode_spec(s.skip(4))
    }
}

proof fn lemma_sextet_round_trip(v: int)
    requires
        0 <= v < 64,
    ensures
        sextet_value(sextet_char_spec(v)) == v,
        sextet_char_spec(v) != '=',
{
}

proof fn lemma_decode_group(g: Seq<u8>)
    requires
        1 <= g.len() <= 3,
    ensures
        decode_group(encode_group(g)) == g,
{
    let b0 = g[0] as int;
    let b1 = if g.len() > 1 { g[1] as int } else { 0 };
    let b2 = if g.len() > 2 { g[2] as int } else { 0 };
    let v0 = b0 / 4;
    let v1 = (b0 % 4) * 16 + b1 / 16;
    let v2 = (b1 % 16) * 4 + b2 / 64;
    let v3 = b2 % 64;
    assert(0 <= v0 < 64 && 0 <= v1 < 64 && 0 <= v2 < 64 && 0 <= v3 < 64) by (nonlinear_arith)
        requires 0 <= b0 < 256, 0 <= b1 < 256, 0 <= b2 < 256, v0 == b0 / 4,
            v1 == (b0 % 4) * 16 + b1 / 16, v2 == (b1 % 16) * 4 + b2 / 64, v3 == b2 % 64;
    assert(v0 * 4 + v1 / 16 == b0 && (v1 % 16) * 16 + v2 / 4 == b1 && (v2 % 4) * 64 + v3 == b2)
        by (nonlinear_arith)
        requires 0 <= b0 < 256, 0 <= b1 < 256, 0 <= b2 < 256, v0 == b0 / 4,
            v1 == (b0 % 4) * 16 + b1 / 16, v2 == (b1 % 16) * 4 + b2 / 64, v3 == b2 % 64;
    lemma_sextet_round_trip(v0);
    lemma_sextet_round_trip(v1);
    lemma_sextet_round_trip(v2);
    lemma_sextet_round_trip(v3);
    let q = encode_group(g);
    if g.len() == 1 {
        assert(decode_group(q) =~= g);
    } else if g.len() == 2 {
        assert(decode_group(q) =~= g);
    } else {
        assert(decode_group(q) =~= g);
    }
}

/// Base64 loses nothing: standard decoding gives the bytes back, so two
/// byte strings with the same encoding are equal.
pub proof fn law_base64_decodes(data: Seq<u8>, other: Seq<u8>)
    ensures
        base64_decode_spec(base64_spec(data)) == data,
        base64_spec(data) == base64_spec(other) ==> data == other,
{
    lemma_base64_decode(data);
    lemma_base64_decode(other);
}

proof fn lemma_base64_decode(data: Seq<u8>)
    ensures
        base64_decode_spec(base64_spec(data)) == data,
    decreases data.len(),
{
    if data.len() == 0 {
        assert(base64_decode_spec(Seq::<char>::empty()) == Seq::<u8>::empty());
        assert(data =~= Seq::<u8>::empty());
    } else if data.len() <= 3 {
        let q = encode_group(data);
        lemma_decode_group(data);
        assert(q.take(4) =~= q);
        assert(q.skip(4) =~= Seq::<char>::empty());
        assert(base64_decode_spec(Seq::<char>::empty()) == Seq::<u8>::empty());
        assert(decode_group(q) + Seq::<u8>::empty() =~= data);
    } else {
        let q = encode_group(data.take(3));
        let rest = base64_spec(data.skip(3));
        lemma_decode_group(data.take(3));
        lemma_base64_decode(data.skip(3));
        assert((q + rest).take(4) =~= q);
        assert((q + rest).skip(4) =~= rest);
        assert(data.take(3) + data.skip(3) =~= data);
    }
}

} // verus!
