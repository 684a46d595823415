//! Base64url without padding (the URL-safe alphabet `A-Z a-z 0-9 - _`),
//! used for the segments of a credential string.  Decoding is strict: a
//! string is accepted only if it is exactly what `encode` produces for
//! some byte sequence.

#![verifier::loop_isolation(false)]

use vstd::prelude::*;

verus! {

/// Alphabet byte for a sextet value.
pub open spec fn b64_char(v: int) -> u8
    recommends
        0 <= v < 64,
{
    if v < 26 {
        (0x41 + v) as u8
    } else if v < 52 {
        (0x61 + v - 26) as u8
    } else if v < 62 {
        (0x30 + v - 52) as u8
    } else if v == 62 {
        0x2du8
    } else {
        0x5fu8
    }
}

/// Sextet value of an alphabet byte, or -1 outside the alphabet.
pub open spec fn b64_val(c: u8) -> int {
    if 0x41 <= c && c <= 0x5a {
        c - 0x41
    } else if 0x61 <= c && c <= 0x7a {
        26 + c - 0x61
    } else if 0x30 <= c && c <= 0x39 {
        52 + c - 0x30
    } else if c == 0x2d {
        62
    } else if c == 0x5f {
        63
    } else {
        -1
    }
}

pub open spec fn is_b64_byte(c: u8) -> bool {
    b64_val(c) >= 0
}

/// The four alphabet bytes of one full three-byte group.
pub open spec fn enc3(a: u8, b: u8, c: u8) -> Seq<u8> {
    seq![
        b64_char(a as int / 4),
        b64_char((a as int % 4) * 16 + b as int / 16),
        b64_char((b as int % 16) * 4 + c as int / 64),
        b64_char(c as int % 64),
    ]
}

/// Base64url encoding of a byte sequence, no padding.
pub open spec fn b64_encode(s: Seq<u8>) -> Seq<u8>
    decreases s.len(),
{
    if s.len() >= 3 {
        enc3(s[0], s[1], s[2]) + b64_encode(s.skip(3))
    } else if s.len() == 2 {
        seq![
            b64_char(s[0] as int / 4),
            b64_char((s[0] as int % 4) * 16 + s[1] as int / 16),
            b64_char((s[1] as int % 16) * 4),
        ]
    } else if s.len() == 1 {
        seq![b64_char(s[0] as int / 4), b64_char((s[0] as int % 4) * 16)]
    } else {
        Seq::empty()
    }
}

/// Strict decoding of one full four-byte group.
pub open spec fn dec4(c0: u8, c1: u8, c2: u8, c3: u8) -> Option<Seq<u8>> {
    let v0 = b64_val(c0);
    let v1 = b64_val(c1);
    let v2 = b64_val(c2);
    let v3 = b64_val(c3);
    if v0 >= 0 && v1 >= 0 && v2 >= 0 && v3 >= 0 {
        Some(
            seq![
                (v0 * 4 + v1 / 16) as u8,
                ((v1 % 16) * 16 + v2 / 4) as u8,
                ((v2 % 4) * 64 + v3) as u8,
            ],
        )
    } else {
        None
    }
}

/// Strict decoding of a two-byte tail (one plain byte); the unused
/// trailing bits must be zero.
pub open spec fn dec_tail2(c0: u8, c1: u8) -> Option<Seq<u8>> {
    let v0 = b64_val(c0);
    let v1 = b64_val(c1);
    if v0 >= 0 && v1 >= 0 && v1 % 16 == 0 {
        Some(seq![(v0 * 4 + v1 / 16) as u8])
    } else {
        None
    }
}

/// Strict decoding of a three-byte tail (two plain bytes); the unused
/// trailing bits must be zero.
pub open spec fn dec_tail3(c0: u8, c1: u8, c2: u8) -> Option<Seq<u8>> {
    let v0 = b64_val(c0);
    let v1 = b64_val(c1);
    let v2 = b64_val(c2);
    if v0 >= 0 && v1 >= 0 && v2 >= 0 && v2 % 4 == 0 {
        Some(seq![(v0 * 4 + v1 / 16) as u8, ((v1 % 16) * 16 + v2 / 4) as u8])
    } else {
        None
    }
}

/// Strict base64url decoding: `Some` exactly on the canonical encodings.
pub open spec fn b64_decode(s: Seq<u8>) -> Option<Seq<u8>>
    decreases s.len(),
{
    if s.len() == 0 {
        Some(Seq::empty())
    } else if s.len() == 1 {
        None
    } else if s.len() == 2 {
        dec_tail2(s[0], s[1])
    } else if s.len() == 3 {
        dec_tail3(s[0], s[1], s[2])
    } else {
        match (dec4(s[0], s[1], s[2], s[3]), b64_decode(s.skip(4))) {
            (Some(g), Some(rest)) => Some(g + rest),
            _ => None,
        }
    }
}

/// The alphabet map and its inverse cancel.
pub proof fn lemma_b64_char_val(v: int)
    requires
        0 <= v < 64,
    ensures
        b64_val(b64_char(v)) == v,
{
}

/// Decoding one full group of an encoding recovers the three bytes.
proof fn lemma_enc3_dec4(a: u8, b: u8, c: u8)
    ensures
        dec4(enc3(a, b, c)[0], enc3(a, b, c)[1], enc3(a, b, c)[2], enc3(a, b, c)[3]) == Some(
            seq![a, b, c],
        ),
{
    let v0 = a as int / 4;
    let v1 = (a as int % 4) * 16 + b as int / 16;
    let v2 = (b as int % 16) * 4 + c as int / 64;
    let v3 = c as int % 64;
    assert(0 <= v0 < 64 && 0 <= v1 < 64 && 0 <= v2 < 64 && 0 <= v3 < 64) by (nonlinear_arith)
        requires
            0 <= a < 256 && 0 <= b < 256 && 0 <= c < 256,
            v0 == a as int / 4 && v1 == (a as int % 4) * 16 + b as int / 16,
            v2 == (b as int % 16) * 4 + c as int / 64 && v3 == c as int % 64,
    ;
    lemma_b64_char_val(v0);
    lemma_b64_char_val(v1);
    lemma_b64_char_val(v2);
    lemma_b64_char_val(v3);
    assert(v0 * 4 + v1 / 16 == a) by (nonlinear_arith)
        requires
            0 <= a < 256 && 0 <= b < 256,
            v0 == a as int / 4 && v1 == (a as int % 4) * 16 + b as int / 16,
    ;
    assert((v1 % 16) * 16 + v2 / 4 == b) by (nonlinear_arith)
        requires
            0 <= a < 256 && 0 <= b < 256 && 0 <= c < 256,
            v1 == (a as int % 4) * 16 + b as int / 16,
            v2 == (b as int % 16) * 4 + c as int / 64,
    ;
    assert((v2 % 4) * 64 + v3 == c) by (nonlinear_arith)
        requires
            0 <= b < 256 && 0 <= c < 256,
            v2 == (b as int % 16) * 4 + c as int / 64 && v3 == c as int % 64,
    ;
    assert(dec4(enc3(a, b, c)[0], enc3(a, b, c)[1], enc3(a, b, c)[2], enc3(a, b, c)[3])
        == Some(seq![a, b, c])) by {
        assert(Some(seq![(v0 * 4 + v1 / 16) as u8, ((v1 % 16) * 16 + v2 / 4) as u8, ((v2 % 4) * 64
            + v3) as u8]) == Some(seq![a, b, c]));
    }
}

/// Decoding a two-byte tail of an encoding recovers the byte.
proof fn lemma_enc1_dec2(a: u8)
    ensures
        dec_tail2(b64_char(a as int / 4), b64_char((a as int % 4) * 16)) == Some(seq![a]),
{
    let v0 = a as int / 4;
    let v1 = (a as int % 4) * 16;
    assert(0 <= v0 < 64 && 0 <= v1 < 64 && v1 % 16 == 0 && v0 * 4 + v1 / 16 == a)
        by (nonlinear_arith)
        requires
            0 <= a < 256,
            v0 == a as int / 4 && v1 == (a as int % 4) * 16,
    ;
    lemma_b64_char_val(v0);
    lemma_b64_char_val(v1);
    assert(dec_tail2(b64_char(v0), b64_char(v1)) == Some(seq![(v0 * 4 + v1 / 16) as u8]));
    assert(seq![(v0 * 4 + v1 / 16) as u8] == seq![a]);
}

/// Decoding a three-byte tail of an encoding recovers the two bytes.
proof fn lemma_enc2_dec3(a: u8, b: u8)
    ensures
        dec_tail3(
            b64_char(a as int / 4),
            b64_char((a as int % 4) * 16 + b as int / 16),
            b64_char((b as int % 16) * 4),
        ) == Some(seq![a, b]),
{
    let v0 = a as int / 4;
    let v1 = (a as int % 4) * 16 + b as int / 16;
    let v2 = (b as int % 16) * 4;
    assert(0 <= v0 < 64 && 0 <= v1 < 64 && 0 <= v2 < 64 && v2 % 4 == 0) by (nonlinear_arith)
        requires
            0 <= a < 256 && 0 <= b < 256,
            v0 == a as int / 4 && v1 == (a as int % 4) * 16 + b as int / 16,
            v2 == (b as int % 16) * 4,
    ;
    assert(v0 * 4 + v1 / 16 == a) by (nonlinear_arith)
        requires
            0 <= a < 256 && 0 <= b < 256,
            v0 == a as int / 4 && v1 == (a as int % 4) * 16 + b as int / 16,
    ;
    assert((v1 % 16) * 16 + v2 / 4 == b) by (nonlinear_arith)
        requires
            0 <= a < 256 && 0 <= b < 256,
            v1 == (a as int % 4) * 16 + b as int / 16,
            v2 == (b as int % 16) * 4,
    ;
    lemma_b64_char_val(v0);
    lemma_b64_char_val(v1);
    lemma_b64_char_val(v2);
    assert(dec_tail3(b64_char(v0), b64_char(v1), b64_char(v2)) == Some(
        seq![(v0 * 4 + v1 / 16) as u8, ((v1 % 16) * 16 + v2 / 4) as u8],
    ));
    assert(seq![(v0 * 4 + v1 / 16) as u8, ((v1 % 16) * 16 + v2 / 4) as u8] == seq![a, b]);
}

/// Strict decoding inverts encoding on every byte sequence.
pub proof fn lemma_b64_round_trip(s: Seq<u8>)
    ensures
        b64_decode(b64_encode(s)) == Some(s),
    decreases s.len(),
{
    if s.len() == 0 {
        assert(b64_encode(s) == Seq::<u8>::empty());
        assert(s == Seq::<u8>::empty());
    } else if s.len() == 1 {
        lemma_enc1_dec2(s[0]);
        assert(seq![s[0]] == s);
    } else if s.len() == 2 {
        lemma_enc2_dec3(s[0], s[1]);
        assert(seq![s[0], s[1]] == s);
    } else {
        let rest = s.skip(3);
        lemma_b64_round_trip(rest);
        lemma_enc3_dec4(s[0], s[1], s[2]);
        let e = b64_encode(s);
        let g = enc3(s[0], s[1], s[2]);
        assert(e == g + b64_encode(rest));
        assert(e.len() >= 4);
        assert(e[0] == g[0] && e[1] == g[1] && e[2] == g[2] && e[3] == g[3]);
        if rest.len() == 0 {
            assert(b64_encode(rest) == Seq::<u8>::empty());
            assert(e.len() == 4);
            assert(e.skip(4) == b64_encode(rest));
        } else {
            assert(b64_encode(rest).len() >= 2);
            assert(e.skip(4) == b64_encode(rest));
        }
        assert(b64_decode(e.skip(4)) == Some(rest));
        assert(b64_decode(e) == Some(seq![s[0], s[1], s[2]] + rest));
        assert(seq![s[0], s[1], s[2]] + rest == s);
    }
}

/// Every byte of an encoding is in the alphabet.
pub proof fn lemma_b64_encode_alphabet(s: Seq<u8>)
    ensures
        forall|i: int|
            0 <= i < b64_encode(s).len() ==> #[trigger] is_b64_byte(b64_encode(s)[i]),
    decreases s.len(),
{
    if s.len() >= 3 {
        lemma_b64_encode_alphabet(s.skip(3));
        let e = b64_encode(s);
        let g = enc3(s[0], s[1], s[2]);
        assert forall|i: int| 0 <= i < e.len() implies #[trigger] is_b64_byte(e[i]) by {
            if i < 4 {
                assert(e[i] == g[i]);
                lemma_b64_char_val_any(g, i);
            } else {
                assert(e[i] == b64_encode(s.skip(3))[i - 4]);
            }
        }
    } else if s.len() == 2 {
        lemma_b64_char_val(s[0] as int / 4);
        lemma_b64_char_val((s[0] as int % 4) * 16 + s[1] as int / 16);
        lemma_b64_char_val((s[1] as int % 16) * 4);
    } else if s.len() == 1 {
        lemma_b64_char_val(s[0] as int / 4);
        lemma_b64_char_val((s[0] as int % 4) * 16);
    }
}

/// Helper for the alphabet lemma: each byte of a full group is in range.
proof fn lemma_b64_char_val_any(g: Seq<u8>, i: int)
    requires
        exists|a: u8, b: u8, c: u8| g == enc3(a, b, c),
        0 <= i < 4,
    ensures
        is_b64_byte(g[i]),
{
    let (a, b, c) = choose|a: u8, b: u8, c: u8| g == enc3(a, b, c);
    assert(0 <= a as int / 4 < 64 && 0 <= (a as int % 4) * 16 + b as int / 16 < 64 && 0 <= (
    b as int % 16) * 4 + c as int / 64 < 64 && 0 <= c as int % 64 < 64) by (nonlinear_arith)
        requires
            0 <= a < 256 && 0 <= b < 256 && 0 <= c < 256,
    ;
    lemma_b64_char_val(a as int / 4);
    lemma_b64_char_val((a as int % 4) * 16 + b as int / 16);
    lemma_b64_char_val((b as int % 16) * 4 + c as int / 64);
    lemma_b64_char_val(c as int % 64);
}

/// Executable alphabet map.
fn b64c(v: u8) -> (c: u8)
    requires
        v < 64,
    ensures
        c == b64_char(v as int),
{
    if v < 26 {
        0x41 + v
    } else if v < 52 {
        0x61 + (v - 26)
    } else if v < 62 {
        0x30 + (v - 52)
    } else if v == 62 {
        0x2d
    } else {
        0x5f
    }
}

/// Executable inverse alphabet map.
fn b64v(c: u8) -> (v: Option<u8>)
    ensures
        match v {
            Some(x) => x < 64 && b64_val(c) == x as int,
            None => b64_val(c) < 0,
        },
{
    if 0x41 <= c && c <= 0x5a {
        Some(c - 0x41)
    } else if 0x61 <= c && c <= 0x7a {
        Some(26 + (c - 0x61))
    } else if 0x30 <= c && c <= 0x39 {
        Some(52 + (c - 0x30))
    } else if c == 0x2d {
        Some(62)
    } else if c == 0x5f {
        Some(63)
    } else {
        None
    }
}

/// Base64url-encode a byte slice, without padding.
pub fn encode(input: &[u8]) -> (out: Vec<u8>)
    ensures
        out@ == b64_encode(input@),
{
    let n = input.len();
    let mut out: Vec<u8> = Vec::new();
    let mut i: usize = 0;
    proof {
        assert(input@.skip(0) =~= input@);
        assert(out@ + b64_encode(input@) =~= b64_encode(input@));
    }
    while 3 <= n && i <= n - 3
        invariant
            i <= n,
            out@ + b64_encode(input@.skip(i as int)) == b64_encode(input@),
        decreases n - i,
    {
        let a = input[i];
        let b = input[i + 1];
        let c = input[i + 2];
        proof {
            assert(input@.skip(i as int).len() >= 3);
            assert(input@.skip(i as int)[0] == a);
            assert(input@.skip(i as int)[1] == b);
            assert(input@.skip(i as int)[2] == c);
            assert(input@.skip(i as int).skip(3) == input@.skip(i + 3));
            assert(0 <= (a as int % 4) * 16 + b as int / 16 < 64 && 0 <= (b as int % 16) * 4
                + c as int / 64 < 64) by (nonlinear_arith)
                requires
                    0 <= a < 256 && 0 <= b < 256 && 0 <= c < 256,
            ;
        }
        out.push(b64c(a / 4));
        out.push(b64c((a % 4) * 16 + b / 16));
        out.push(b64c((b % 16) * 4 + c / 64));
        out.push(b64c(c % 64));
        proof {
            assert(out@ + b64_encode(input@.skip(i + 3)) == b64_encode(input@));
        }
        i = i + 3;
    }
    if n - i == 1 {
        let a = input[i];
        proof {
            assert(input@.skip(i as int).len() == 1);
            assert(input@.skip(i as int)[0] == a);
        }
        out.push(b64c(a / 4));
        out.push(b64c((a % 4) * 16));
    } else if n - i == 2 {
        let a = input[i];
        let b = input[i + 1];
        proof {
            assert(input@.skip(i as int).len() == 2);
            assert(input@.skip(i as int)[0] == a);
            assert(input@.skip(i as int)[1] == b);
            assert(0 <= (a as int % 4) * 16 + b as int / 16 < 64) by (nonlinear_arith)
                requires
                    0 <= a < 256 && 0 <= b < 256,
            ;
        }
        out.push(b64c(a / 4));
        out.push(b64c((a % 4) * 16 + b / 16));
        out.push(b64c((b % 16) * 4));
    } else {
        proof {
            assert(input@.skip(i as int).len() == 0);
            assert(b64_encode(input@.skip(i as int)) == Seq::<u8>::empty());
        }
    }
    proof {
        assert(out@ == b64_encode(input@));
    }
    out
}

/// Strictly decode a base64url byte slice; `None` on anything that is
/// not a canonical encoding.
pub fn decode(input: &[u8]) -> (out: Option<Vec<u8>>)
    ensures
        match out {
            Some(v) => b64_decode(input@) == Some(v@),
            None => b64_decode(input@) is None,
        },
{
    let n = input.len();
    let mut out: Vec<u8> = Vec::new();
    let mut i: usize = 0;
    proof {
        assert(input@.skip(0) =~= input@);
        if b64_decode(input@) is Some {
            assert(out@ + b64_decode(input@)->Some_0 =~= b64_decode(input@)->Some_0);
        }
    }
    while 4 <= n && i <= n - 4
        invariant
            i <= n,
            match b64_decode(input@.skip(i as int)) {
                Some(r) => b64_decode(input@) == Some(out@ + r),
                None => b64_decode(input@) is None,
            },
        decreases n - i,
    {
        proof {
            assert(input@.skip(i as int).len() >= 4);
            assert(input@.skip(i as int)[0] == input@[i as int]);
            assert(input@.skip(i as int)[1] == input@[i + 1]);
            assert(input@.skip(i as int)[2] == input@[i + 2]);
            assert(input@.skip(i as int)[3] == input@[i + 3]);
            assert(input@.skip(i as int).skip(4) == input@.skip(i + 4));
        }
        let v0 = match b64v(input[i]) {
            Some(v) => v,
            None => {
                return None;
            },
        };
        let v1 = match b64v(input[i + 1]) {
            Some(v) => v,
            None => {
                return None;
            },
        };
        let v2 = match b64v(input[i + 2]) {
            Some(v) => v,
            None => {
                return None;
            },
        };
        let v3 = match b64v(input[i + 3]) {
            Some(v) => v,
            None => {
                return None;
            },
        };
        out.push(v0 * 4 + v1 / 16);
        out.push((v1 % 16) * 16 + v2 / 4);
        out.push((v2 % 4) * 64 + v3);
        i = i + 4;
    }
    let rem = n - i;
    if rem == 0 {
        proof {
            assert(input@.skip(i as int).len() == 0);
            assert(b64_decode(input@.skip(i as int)) == Some(Seq::<u8>::empty()));
            assert(out@ + Seq::<u8>::empty() == out@);
        }
        Some(out)
    } else if rem == 2 {
        proof {
            assert(input@.skip(i as int).len() == 2);
            assert(input@.skip(i as int)[0] == input@[i as int]);
            assert(input@.skip(i as int)[1] == input@[i + 1]);
        }
        let v0 = match b64v(input[i]) {
            Some(v) => v,
            None => {
                return None;
            },
        };
        let v1 = match b64v(input[i + 1]) {
            Some(v) => v,
            None => {
                return None;
            },
        };
        if v1 % 16 != 0 {
            return None;
        }
        out.push(v0 * 4 + v1 / 16);
        Some(out)
    } else if rem == 3 {
        proof {
            assert(input@.skip(i as int).len() == 3);
            assert(input@.skip(i as int)[0] == input@[i as int]);
            assert(input@.skip(i as int)[1] == input@[i + 1]);
            assert(input@.skip(i as int)[2] == input@[i + 2]);
        }
        let v0 = match b64v(input[i]) {
            Some(v) => v,
            None => {
                return None;
            },
        };
        let v1 = match b64v(input[i + 1]) {
            Some(v) => v,
            None => {
                return None;
            },
        };
        let v2 = match b64v(input[i + 2]) {
            Some(v) => v,
            None => {
                return None;
            },
        };
        if v2 % 4 != 0 {
            return None;
        }
        out.push(v0 * 4 + v1 / 16);
        out.push((v1 % 16) * 16 + v2 / 4);
        Some(out)
    } else {
        None
    }
}

} // verus!
