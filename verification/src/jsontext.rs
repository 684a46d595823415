//! JSON string text for the claim fields.  A string is carried as its
//! UTF-8 bytes with the quote, the backslash and the control bytes
//! escaped; parsing is strict and accepts exactly the escapes the
//! encoder emits.

#![verifier::loop_isolation(false)]

use vstd::prelude::*;
use vstd::utf8::{decode_utf8, encode_utf8, valid_utf8};

verus! {

pub open spec fn hex_char(v: int) -> u8
    recommends
        0 <= v < 16,
{
    if v < 10 {
        (0x30 + v) as u8
    } else {
        (0x61 + v - 10) as u8
    }
}

pub open spec fn hex_val(b: u8) -> int {
    if 0x30 <= b && b <= 0x39 {
        b - 0x30
    } else if 0x61 <= b && b <= 0x66 {
        10 + b - 0x61
    } else if 0x41 <= b && b <= 0x46 {
        10 + b - 0x41
    } else {
        -1
    }
}

pub proof fn lemma_hex_char_val(v: int)
    requires
        0 <= v < 16,
    ensures
        hex_val(hex_char(v)) == v,
{
}

/// Escaped form of one byte of string content.
pub open spec fn esc_byte(b: u8) -> Seq<u8> {
    if b == 0x22 {
        seq![0x5cu8, 0x22u8]
    } else if b == 0x5c {
        seq![0x5cu8, 0x5cu8]
    } else if b < 0x20 {
        seq![0x5cu8, 0x75u8, 0x30u8, 0x30u8, hex_char(b as int / 16), hex_char(b as int % 16)]
    } else {
        seq![b]
    }
}

pub open spec fn esc_bytes(s: Seq<u8>) -> Seq<u8>
    decreases s.len(),
{
    if s.len() == 0 {
        Seq::empty()
    } else {
        esc_byte(s[0]) + esc_bytes(s.skip(1))
    }
}

/// A whole JSON string: quote, escaped UTF-8 content, quote.
pub open spec fn json_string_bytes(s: Seq<char>) -> Seq<u8> {
    seq![0x22u8] + esc_bytes(encode_utf8(s)) + seq![0x22u8]
}

/// Parse string content from position `p` up to and over the closing
/// quote; returns the unescaped bytes and the position after the quote.
pub open spec fn parse_str_content(s: Seq<u8>, p: int) -> Option<(Seq<u8>, int)>
    decreases s.len() - p,
{
    if p < 0 || p >= s.len() {
        None
    } else if s[p] == 0x22 {
        Some((Seq::empty(), p + 1))
    } else if s[p] == 0x5c {
        if p + 1 < s.len() && (s[p + 1] == 0x22 || s[p + 1] == 0x5c) {
            match parse_str_content(s, p + 2) {
                Some((r, q)) => Some((seq![s[p + 1]] + r, q)),
                None => None,
            }
        } else if p + 5 < s.len() && s[p + 1] == 0x75 && s[p + 2] == 0x30 && s[p + 3] == 0x30
            && hex_val(s[p + 4]) >= 0 && hex_val(s[p + 5]) >= 0 && hex_val(s[p + 4]) * 16 + hex_val(
            s[p + 5],
        ) < 0x20 {
            match parse_str_content(s, p + 6) {
                Some((r, q)) => Some(
                    (seq![(hex_val(s[p + 4]) * 16 + hex_val(s[p + 5])) as u8] + r, q),
                ),
                None => None,
            }
        } else {
            None
        }
    } else if s[p] < 0x20 {
        None
    } else {
        match parse_str_content(s, p + 1) {
            Some((r, q)) => Some((seq![s[p]] + r, q)),
            None => None,
        }
    }
}

/// A whole JSON string value: decodes the content as UTF-8.
pub open spec fn parse_jstring(s: Seq<u8>, p: int) -> Option<(Seq<char>, int)> {
    if 0 <= p < s.len() && s[p] == 0x22 {
        match parse_str_content(s, p + 1) {
            Some((raw, q)) => if valid_utf8(raw) {
                Some((decode_utf8(raw), q))
            } else {
                None
            },
            None => None,
        }
    } else {
        None
    }
}

/// String content parsing always advances and stays in bounds.
pub proof fn lemma_parse_str_content_bounds(s: Seq<u8>, p: int)
    ensures
        parse_str_content(s, p) matches Some(r) ==> p < r.1 <= s.len(),
    decreases s.len() - p,
{
    if 0 <= p < s.len() {
        if s[p] == 0x5c {
            if p + 1 < s.len() && (s[p + 1] == 0x22 || s[p + 1] == 0x5c) {
                lemma_parse_str_content_bounds(s, p + 2);
            } else if p + 5 < s.len() {
                lemma_parse_str_content_bounds(s, p + 6);
            }
        } else {
            lemma_parse_str_content_bounds(s, p + 1);
        }
    }
}

/// Parsing over the escaped form of `c` prepends `c` to whatever the
/// parse of the rest yields.
pub proof fn lemma_parse_esc_bytes(s: Seq<u8>, p: int, c: Seq<u8>, r: Seq<u8>, q: int)
    requires
        0 <= p,
        p + esc_bytes(c).len() <= s.len(),
        s.subrange(p, p + esc_bytes(c).len()) == esc_bytes(c),
        parse_str_content(s, p + esc_bytes(c).len()) == Some((r, q)),
    ensures
        parse_str_content(s, p) == Some((c + r, q)),
    decreases c.len(),
{
    let e = esc_bytes(c);
    if c.len() == 0 {
        assert(c + r =~= r);
    } else {
        let b = c[0];
        let tail = c.skip(1);
        let eb = esc_byte(b);
        assert(e == eb + esc_bytes(tail));
        let p2 = p + eb.len();
        assert(s.subrange(p2, p2 + esc_bytes(tail).len()) == esc_bytes(tail)) by {
            assert forall|i: int| 0 <= i < esc_bytes(tail).len() implies s.subrange(
                p2,
                p2 + esc_bytes(tail).len(),
            )[i] == esc_bytes(tail)[i] by {
                assert(s.subrange(p, p + e.len())[eb.len() + i] == e[eb.len() + i]);
            }
            assert(s.subrange(p2, p2 + esc_bytes(tail).len()) =~= esc_bytes(tail));
        }
        lemma_parse_esc_bytes(s, p2, tail, r, q);
        assert(parse_str_content(s, p2) == Some((tail + r, q)));
        let sr = s.subrange(p, p + e.len());
        assert(sr == e);
        if b == 0x22 {
            assert(sr[0] == s[p] && sr[1] == s[p + 1]);
            assert(e[0] == eb[0] && e[1] == eb[1]);
            assert(s[p] == 0x5c && s[p + 1] == 0x22);
            assert(parse_str_content(s, p) == Some((seq![b] + (tail + r), q)));
        } else if b == 0x5c {
            assert(sr[0] == s[p] && sr[1] == s[p + 1]);
            assert(e[0] == eb[0] && e[1] == eb[1]);
            assert(s[p] == 0x5c && s[p + 1] == 0x5c);
            assert(parse_str_content(s, p) == Some((seq![b] + (tail + r), q)));
        } else if b < 0x20 {
            assert(sr[0] == s[p] && sr[1] == s[p + 1] && sr[2] == s[p + 2] && sr[3] == s[p + 3]
                && sr[4] == s[p + 4] && sr[5] == s[p + 5]);
            assert(e[0] == eb[0] && e[1] == eb[1] && e[2] == eb[2] && e[3] == eb[3] && e[4] == eb[4]
                && e[5] == eb[5]);
            assert(s[p] == 0x5c && s[p + 1] == 0x75 && s[p + 2] == 0x30 && s[p + 3] == 0x30);
            assert(s[p + 4] == hex_char(b as int / 16) && s[p + 5] == hex_char(b as int % 16));
            lemma_hex_char_val(b as int / 16);
            lemma_hex_char_val(b as int % 16);
            assert(hex_val(s[p + 4]) * 16 + hex_val(s[p + 5]) == b) by (nonlinear_arith)
                requires
                    hex_val(s[p + 4]) == b as int / 16,
                    hex_val(s[p + 5]) == b as int % 16,
                    0 <= b < 0x20,
            ;
            assert(parse_str_content(s, p) == Some((seq![b] + (tail + r), q)));
        } else {
            assert(sr[0] == s[p]);
            assert(e[0] == eb[0]);
            assert(s[p] == b);
            assert(parse_str_content(s, p) == Some((seq![b] + (tail + r), q)));
        }
        assert(seq![b] + (tail + r) =~= c + r);
    }
}

/// Parsing a whole encoded JSON string recovers the characters and ends
/// right after the closing quote.
pub proof fn lemma_parse_json_string(s: Seq<u8>, p: int, u: Seq<char>)
    requires
        0 <= p,
        p + json_string_bytes(u).len() <= s.len(),
        s.subrange(p, p + json_string_bytes(u).len()) == json_string_bytes(u),
    ensures
        parse_jstring(s, p) == Some((u, p + json_string_bytes(u).len())),
{
    let j = json_string_bytes(u);
    let raw = encode_utf8(u);
    let e = esc_bytes(raw);
    let close = p + 1 + e.len();
    let sr = s.subrange(p, p + j.len());
    assert(sr == j);
    assert(sr[0] == s[p]);
    assert(j[0] == 0x22);
    assert(s[p] == 0x22);
    assert(sr[1 + e.len() as int] == s[close]);
    assert(j[1 + e.len() as int] == 0x22);
    assert(s[close] == 0x22);
    assert(parse_str_content(s, close) == Some((Seq::<u8>::empty(), close + 1)));
    assert(s.subrange(p + 1, p + 1 + e.len()) == e) by {
        assert forall|i: int| 0 <= i < e.len() implies s.subrange(p + 1, p + 1 + e.len())[i]
            == e[i] by {
            assert(sr[1 + i] == s[p + 1 + i]);
            assert(j[1 + i] == e[i]);
        }
        assert(s.subrange(p + 1, p + 1 + e.len()) =~= e);
    }
    lemma_parse_esc_bytes(s, p + 1, raw, Seq::empty(), close + 1);
    assert(raw + Seq::<u8>::empty() =~= raw);
    assert(parse_str_content(s, p + 1) == Some((raw, close + 1)));
    broadcast use vstd::utf8::encode_utf8_valid_utf8, vstd::utf8::encode_utf8_decode_utf8;

    assert(valid_utf8(raw));
    assert(decode_utf8(raw) == u);
}

/// Relies on `String::from_utf8`: `Ok` exactly on valid UTF-8 input,
/// whose decoding it returns.
#[verifier::external_body]
pub fn bytes_to_string(v: Vec<u8>) -> (r: Option<String>)
    ensures
        match r {
            Some(s) => valid_utf8(v@) && s@ == decode_utf8(v@),
            None => !valid_utf8(v@),
        },
{
    match String::from_utf8(v) {
        Ok(s) => Some(s),
        Err(_) => None,
    }
}

fn hexc(v: u8) -> (c: u8)
    requires
        v < 16,
    ensures
        c == hex_char(v as int),
{
    if v < 10 {
        0x30 + v
    } else {
        0x61 + (v - 10)
    }
}

fn hexv(b: u8) -> (v: Option<u8>)
    ensures
        match v {
            Some(x) => x < 16 && hex_val(b) == x as int,
            None => hex_val(b) < 0,
        },
{
    if 0x30 <= b && b <= 0x39 {
        Some(b - 0x30)
    } else if 0x61 <= b && b <= 0x66 {
        Some(10 + (b - 0x61))
    } else if 0x41 <= b && b <= 0x46 {
        Some(10 + (b - 0x41))
    } else {
        None
    }
}

/// Append the escaped form of `raw` to `out`.
pub fn push_escaped(out: &mut Vec<u8>, raw: &[u8])
    ensures
        final(out)@ == old(out)@ + esc_bytes(raw@),
{
    let n = raw.len();
    let mut i: usize = 0;
    proof {
        assert(raw@.skip(0) =~= raw@);
    }
    while i < n
        invariant
            i <= n,
            out@ + esc_bytes(raw@.skip(i as int)) == old(out)@ + esc_bytes(raw@),
        decreases n - i,
    {
        let b = raw[i];
        proof {
            assert(raw@.skip(i as int)[0] == b);
            assert(raw@.skip(i as int).skip(1) == raw@.skip(i + 1));
            assert(esc_bytes(raw@.skip(i as int)) == esc_byte(b) + esc_bytes(raw@.skip(i + 1)));
        }
        if b == 0x22 {
            out.push(0x5c);
            out.push(0x22);
        } else if b == 0x5c {
            out.push(0x5c);
            out.push(0x5c);
        } else if b < 0x20 {
            out.push(0x5c);
            out.push(0x75);
            out.push(0x30);
            out.push(0x30);
            out.push(hexc(b / 16));
            out.push(hexc(b % 16));
        } else {
            out.push(b);
        }
        proof {
            assert(out@ + esc_bytes(raw@.skip(i + 1)) =~= old(out)@ + esc_bytes(raw@));
        }
        i = i + 1;
    }
    proof {
        assert(raw@.skip(n as int) =~= Seq::<u8>::empty());
        assert(out@ =~= old(out)@ + esc_bytes(raw@));
    }
}

/// Append a whole JSON string for `s` to `out`.
pub fn push_json_string(out: &mut Vec<u8>, s: &str)
    ensures
        final(out)@ == old(out)@ + json_string_bytes(s@),
{
    out.push(0x22);
    push_escaped(out, s.as_bytes());
    out.push(0x22);
    proof {
        assert(out@ =~= old(out)@ + json_string_bytes(s@));
    }
}

/// Parse string content at `p` (after the opening quote), as
/// `parse_str_content` describes.
pub fn parse_str_content_exec(s: &[u8], p: usize) -> (r: Option<(Vec<u8>, usize)>)
    requires
        p <= s@.len(),
    ensures
        match r {
            Some((v, q)) => parse_str_content(s@, p as int) == Some((v@, q as int)) && p < q
                <= s@.len(),
            None => parse_str_content(s@, p as int) is None,
        },
{
    let n = s.len();
    let mut acc: Vec<u8> = Vec::new();
    let mut cur = p;
    proof {
        lemma_parse_str_content_bounds(s@, p as int);
        let res = parse_str_content(s@, p as int);
        if res is Some {
            assert(acc@ + res->Some_0.0 =~= res->Some_0.0);
        }
    }
    loop
        invariant
            p <= cur <= n,
            n == s@.len(),
            match parse_str_content(s@, cur as int) {
                Some((r2, q)) => parse_str_content(s@, p as int) == Some((acc@ + r2, q)) && cur < q
                    <= s@.len(),
                None => parse_str_content(s@, p as int) is None,
            },
        decreases n - cur,
    {
        if cur >= n {
            return None;
        }
        let ghost acc0 = acc@;
        let b = s[cur];
        if b == 0x22 {
            proof {
                assert(acc@ + Seq::<u8>::empty() =~= acc@);
            }
            return Some((acc, cur + 1));
        } else if b == 0x5c {
            if n - cur > 1 && (s[cur + 1] == 0x22 || s[cur + 1] == 0x5c) {
                let e = s[cur + 1];
                acc.push(e);
                cur = cur + 2;
                proof {
                    lemma_parse_str_content_bounds(s@, cur as int);
                    assert(acc@ =~= acc0 + seq![e]);
                    let res = parse_str_content(s@, cur as int);
                    if res is Some {
                        let r2 = res->Some_0.0;
                        assert(acc0 + (seq![e] + r2) =~= acc@ + r2);
                    }
                }
            } else if n - cur > 5 && s[cur + 1] == 0x75 && s[cur + 2] == 0x30 && s[cur + 3]
                == 0x30 {
                let h = match hexv(s[cur + 4]) {
                    Some(h) => h,
                    None => {
                        return None;
                    },
                };
                let l = match hexv(s[cur + 5]) {
                    Some(l) => l,
                    None => {
                        return None;
                    },
                };
                let v = h * 16 + l;
                if v >= 0x20 {
                    return None;
                }
                acc.push(v);
                cur = cur + 6;
                proof {
                    lemma_parse_str_content_bounds(s@, cur as int);
                    assert(acc@ =~= acc0 + seq![v]);
                    let res = parse_str_content(s@, cur as int);
                    if res is Some {
                        let r2 = res->Some_0.0;
                        assert(acc0 + (seq![v] + r2) =~= acc@ + r2);
                    }
                }
            } else {
                return None;
            }
        } else if b < 0x20 {
            return None;
        } else {
            acc.push(b);
            cur = cur + 1;
            proof {
                lemma_parse_str_content_bounds(s@, cur as int);
                assert(acc@ =~= acc0 + seq![b]);
                let res = parse_str_content(s@, cur as int);
                if res is Some {
                    let r2 = res->Some_0.0;
                    assert(acc0 + (seq![b] + r2) =~= acc@ + r2);
                }
            }
        }
    }
}

/// Parse a whole JSON string value at `p`, as `parse_jstring` describes.
pub fn parse_jstring_exec(s: &[u8], p: usize) -> (r: Option<(String, usize)>)
    requires
        p <= s@.len(),
    ensures
        match r {
            Some((v, q)) => parse_jstring(s@, p as int) == Some((v@, q as int)) && p < q
                <= s@.len(),
            None => parse_jstring(s@, p as int) is None,
        },
{
    if p >= s.len() || s[p] != 0x22 {
        return None;
    }
    match parse_str_content_exec(s, p + 1) {
        Some((raw, q)) => {
            match bytes_to_string(raw) {
                Some(st) => Some((st, q)),
                None => None,
            }
        },
        None => None,
    }
}

/// JSON string parsing always advances and stays in bounds.
pub proof fn lemma_parse_jstring_bounds(s: Seq<u8>, p: int)
    ensures
        parse_jstring(s, p) matches Some(r) ==> p < r.1 <= s.len(),
{
    if 0 <= p < s.len() && s[p] == 0x22 {
        lemma_parse_str_content_bounds(s, p + 1);
    }
}

} // verus!
