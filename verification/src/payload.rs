//! The credential payload: a canonical JSON object holding the claim
//! set, specified byte for byte, with a strict parser that accepts
//! exactly the canonical form.

#![verifier::loop_isolation(false)]

use vstd::prelude::*;

use crate::claims::{Claims, ClaimsView};
use crate::dectext::int_bytes;
use crate::dectext::push_i64;
use crate::jsontext::json_string_bytes;
use crate::jsontext::push_json_string;

verus! {

pub open spec fn l_sub() -> Seq<u8> {
    seq![0x7bu8, 0x22u8, 0x73u8, 0x75u8, 0x62u8, 0x22u8, 0x3au8]
}

pub open spec fn l_iss() -> Seq<u8> {
    seq![0x2cu8, 0x22u8, 0x69u8, 0x73u8, 0x73u8, 0x22u8, 0x3au8]
}

pub open spec fn l_exp() -> Seq<u8> {
    seq![0x2cu8, 0x22u8, 0x65u8, 0x78u8, 0x70u8, 0x22u8, 0x3au8]
}

pub open spec fn l_iat() -> Seq<u8> {
    seq![0x2cu8, 0x22u8, 0x69u8, 0x61u8, 0x74u8, 0x22u8, 0x3au8]
}

pub open spec fn l_nbf() -> Seq<u8> {
    seq![0x2cu8, 0x22u8, 0x6eu8, 0x62u8, 0x66u8, 0x22u8, 0x3au8]
}

pub open spec fn l_aud() -> Seq<u8> {
    seq![0x2cu8, 0x22u8, 0x61u8, 0x75u8, 0x64u8, 0x22u8, 0x3au8]
}

pub open spec fn l_jti() -> Seq<u8> {
    seq![0x2cu8, 0x22u8, 0x6au8, 0x74u8, 0x69u8, 0x22u8, 0x3au8]
}

pub open spec fn l_role() -> Seq<u8> {
    seq![0x2cu8, 0x22u8, 0x72u8, 0x6fu8, 0x6cu8, 0x65u8, 0x22u8, 0x3au8]
}

pub open spec fn l_email() -> Seq<u8> {
    seq![0x2cu8, 0x22u8, 0x65u8, 0x6du8, 0x61u8, 0x69u8, 0x6cu8, 0x22u8, 0x3au8]
}

pub open spec fn l_null() -> Seq<u8> {
    seq![0x6eu8, 0x75u8, 0x6cu8, 0x6cu8]
}

/// A string field that may be absent: `null` or a JSON string.
pub open spec fn opt_string_bytes(o: Option<Seq<char>>) -> Seq<u8> {
    match o {
        Some(s) => json_string_bytes(s),
        None => l_null(),
    }
}

/// An integer field that may be absent: `null` or decimal text.
pub open spec fn opt_int_bytes(o: Option<int>) -> Seq<u8> {
    match o {
        Some(v) => int_bytes(v),
        None => l_null(),
    }
}

/// The comma-separated items of the role array.
pub open spec fn roles_items_bytes(rs: Seq<Seq<char>>) -> Seq<u8>
    decreases rs.len(),
{
    if rs.len() == 0 {
        Seq::empty()
    } else if rs.len() == 1 {
        json_string_bytes(rs[0])
    } else {
        json_string_bytes(rs[0]) + seq![0x2cu8] + roles_items_bytes(rs.skip(1))
    }
}

/// The role array, brackets included.
pub open spec fn roles_bytes(rs: Seq<Seq<char>>) -> Seq<u8> {
    seq![0x5bu8] + roles_items_bytes(rs) + seq![0x5du8]
}

/// The canonical payload object for a claim set: every field present,
/// in a fixed order, with `null` for the absent options.
#[verifier::opaque]
pub open spec fn payload_bytes(c: ClaimsView) -> Seq<u8> {
    l_sub() + json_string_bytes(c.sub) + l_iss() + json_string_bytes(c.iss) + l_exp() + int_bytes(
        c.exp,
    ) + l_iat() + int_bytes(c.iat) + l_nbf() + opt_int_bytes(c.nbf) + l_aud() + opt_string_bytes(
        c.aud,
    ) + l_jti() + json_string_bytes(c.jti) + l_role() + roles_bytes(c.role) + l_email()
        + opt_string_bytes(c.email) + seq![0x7du8]
}

/// Append the item texts of the role array from index `i` on.
fn push_roles_items(out: &mut Vec<u8>, roles: &Vec<String>, i: usize)
    requires
        i <= roles@.len(),
    ensures
        final(out)@ == old(out)@ + roles_items_bytes(roles.deep_view().skip(i as int)),
    decreases roles@.len() - i,
{
    let n = roles.len();
    proof {
        assert(roles.deep_view().len() == roles@.len());
    }
    if i < n {
        push_json_string(out, roles[i].as_str());
        proof {
            assert(roles.deep_view().skip(i as int)[0] == roles@[i as int]@);
        }
        if i + 1 < n {
            out.push(0x2c);
            push_roles_items(out, roles, i + 1);
            proof {
                assert(roles.deep_view().skip(i as int).skip(1) == roles.deep_view().skip(i + 1));
                assert(roles.deep_view().skip(i as int).len() >= 2);
                assert(final(out)@ =~= old(out)@ + roles_items_bytes(
                    roles.deep_view().skip(i as int),
                ));
            }
        } else {
            proof {
                assert(roles.deep_view().skip(i as int).len() == 1);
                assert(final(out)@ =~= old(out)@ + roles_items_bytes(
                    roles.deep_view().skip(i as int),
                ));
            }
        }
    } else {
        proof {
            assert(roles.deep_view().skip(i as int).len() == 0);
            assert(final(out)@ =~= old(out)@ + roles_items_bytes(roles.deep_view().skip(i as int)));
        }
    }
}

/// Append `null` to `out`.
fn push_null(out: &mut Vec<u8>)
    ensures
        final(out)@ == old(out)@ + l_null(),
{
    out.push(0x6e);
    out.push(0x75);
    out.push(0x6c);
    out.push(0x6c);
    proof {
        assert(final(out)@ =~= old(out)@ + l_null());
    }
}

/// Append one seven-byte key text to `out`.
fn push_key7(out: &mut Vec<u8>, b0: u8, b1: u8, b2: u8, b3: u8, b4: u8, b5: u8, b6: u8)
    ensures
        final(out)@ == old(out)@ + seq![b0, b1, b2, b3, b4, b5, b6],
{
    out.push(b0);
    out.push(b1);
    out.push(b2);
    out.push(b3);
    out.push(b4);
    out.push(b5);
    out.push(b6);
    proof {
        assert(final(out)@ =~= old(out)@ + seq![b0, b1, b2, b3, b4, b5, b6]);
    }
}

/// Append the whole role array to `out`.
fn push_roles(out: &mut Vec<u8>, roles: &Vec<String>)
    ensures
        final(out)@ == old(out)@ + roles_bytes(roles.deep_view()),
{
    out.push(0x5b);
    push_roles_items(out, roles, 0);
    out.push(0x5d);
    proof {
        assert(roles.deep_view().skip(0) =~= roles.deep_view());
        assert(final(out)@ =~= old(out)@ + roles_bytes(roles.deep_view()));
    }
}

/// Append an optional string field to `out`.
fn push_opt_string(out: &mut Vec<u8>, o: &Option<String>)
    ensures
        final(out)@ == old(out)@ + opt_string_bytes(
            match o {
                Some(s) => Some(s@),
                None => None,
            },
        ),
{
    match o {
        Some(s) => push_json_string(out, s.as_str()),
        None => push_null(out),
    }
}

/// Append an optional integer field to `out`.
fn push_opt_i64(out: &mut Vec<u8>, o: &Option<i64>)
    ensures
        final(out)@ == old(out)@ + opt_int_bytes(
            match o {
                Some(v) => Some(v as int),
                None => None,
            },
        ),
{
    match o {
        Some(v) => push_i64(out, *v),
        None => push_null(out),
    }
}

/// The canonical payload text of a claim set.
pub fn payload_vec(c: &Claims) -> (out: Vec<u8>)
    ensures
        out@ == payload_bytes(c@),
{
    let mut out: Vec<u8> = Vec::new();
    push_key7(&mut out, 0x7b, 0x22, 0x73, 0x75, 0x62, 0x22, 0x3a);
    proof {
        assert(Seq::<u8>::empty() + l_sub() =~= l_sub());
        assert(seq![0x7bu8, 0x22u8, 0x73u8, 0x75u8, 0x62u8, 0x22u8, 0x3au8] == l_sub());
        assert(out@ == l_sub());
    }
    push_json_string(&mut out, c.sub.as_str());
    push_key7(&mut out, 0x2c, 0x22, 0x69, 0x73, 0x73, 0x22, 0x3a);
    proof {
        assert(seq![0x2cu8, 0x22u8, 0x69u8, 0x73u8, 0x73u8, 0x22u8, 0x3au8] == l_iss());
    }
    push_json_string(&mut out, c.iss.as_str());
    push_key7(&mut out, 0x2c, 0x22, 0x65, 0x78, 0x70, 0x22, 0x3a);
    proof {
        assert(seq![0x2cu8, 0x22u8, 0x65u8, 0x78u8, 0x70u8, 0x22u8, 0x3au8] == l_exp());
    }
    push_i64(&mut out, c.exp);
    push_key7(&mut out, 0x2c, 0x22, 0x69, 0x61, 0x74, 0x22, 0x3a);
    proof {
        assert(seq![0x2cu8, 0x22u8, 0x69u8, 0x61u8, 0x74u8, 0x22u8, 0x3au8] == l_iat());
    }
    push_i64(&mut out, c.iat);
    push_key7(&mut out, 0x2c, 0x22, 0x6e, 0x62, 0x66, 0x22, 0x3a);
    proof {
        assert(seq![0x2cu8, 0x22u8, 0x6eu8, 0x62u8, 0x66u8, 0x22u8, 0x3au8] == l_nbf());
    }
    push_opt_i64(&mut out, &c.nbf);
    push_key7(&mut out, 0x2c, 0x22, 0x61, 0x75, 0x64, 0x22, 0x3a);
    proof {
        assert(seq![0x2cu8, 0x22u8, 0x61u8, 0x75u8, 0x64u8, 0x22u8, 0x3au8] == l_aud());
    }
    push_opt_string(&mut out, &c.aud);
    push_key7(&mut out, 0x2c, 0x22, 0x6a, 0x74, 0x69, 0x22, 0x3a);
    proof {
        assert(seq![0x2cu8, 0x22u8, 0x6au8, 0x74u8, 0x69u8, 0x22u8, 0x3au8] == l_jti());
    }
    push_json_string(&mut out, c.jti.as_str());
    push_key7(&mut out, 0x2c, 0x22, 0x72, 0x6f, 0x6c, 0x65, 0x22);
    out.push(0x3a);
    proof {
        assert(out@ == (l_sub() + json_string_bytes(c@.sub) + l_iss() + json_string_bytes(c@.iss)
            + l_exp() + int_bytes(c@.exp) + l_iat() + int_bytes(c@.iat) + l_nbf() + opt_int_bytes(
            c@.nbf,
        ) + l_aud() + opt_string_bytes(c@.aud) + l_jti() + json_string_bytes(c@.jti) + seq![0x2cu8,
            0x22u8, 0x72u8, 0x6fu8, 0x6cu8, 0x65u8, 0x22u8]).push(0x3au8));
        assert((l_sub() + json_string_bytes(c@.sub) + l_iss() + json_string_bytes(c@.iss) + l_exp()
            + int_bytes(c@.exp) + l_iat() + int_bytes(c@.iat) + l_nbf() + opt_int_bytes(c@.nbf)
            + l_aud() + opt_string_bytes(c@.aud) + l_jti() + json_string_bytes(c@.jti) + seq![
            0x2cu8, 0x22u8, 0x72u8, 0x6fu8, 0x6cu8, 0x65u8, 0x22u8]).push(0x3au8) =~= l_sub()
            + json_string_bytes(c@.sub) + l_iss() + json_string_bytes(c@.iss) + l_exp() + int_bytes(
            c@.exp,
        ) + l_iat() + int_bytes(c@.iat) + l_nbf() + opt_int_bytes(c@.nbf) + l_aud()
            + opt_string_bytes(c@.aud) + l_jti() + json_string_bytes(c@.jti) + l_role());
    }
    push_roles(&mut out, &c.role);
    push_key7(&mut out, 0x2c, 0x22, 0x65, 0x6d, 0x61, 0x69, 0x6c);
    out.push(0x22);
    out.push(0x3a);
    proof {
        let pre = l_sub() + json_string_bytes(c@.sub) + l_iss() + json_string_bytes(c@.iss)
            + l_exp() + int_bytes(c@.exp) + l_iat() + int_bytes(c@.iat) + l_nbf() + opt_int_bytes(
            c@.nbf,
        ) + l_aud() + opt_string_bytes(c@.aud) + l_jti() + json_string_bytes(c@.jti) + l_role()
            + roles_bytes(c@.role);
        assert(out@ == (pre + seq![0x2cu8, 0x22u8, 0x65u8, 0x6du8, 0x61u8, 0x69u8, 0x6cu8]).push(
            0x22u8,
        ).push(0x3au8));
        assert((pre + seq![0x2cu8, 0x22u8, 0x65u8, 0x6du8, 0x61u8, 0x69u8, 0x6cu8]).push(
            0x22u8,
        ).push(0x3au8) =~= pre + l_email());
    }
    push_opt_string(&mut out, &c.email);
    out.push(0x7d);
    proof {
        reveal(payload_bytes);
        let pre = l_sub() + json_string_bytes(c@.sub) + l_iss() + json_string_bytes(c@.iss)
            + l_exp() + int_bytes(c@.exp) + l_iat() + int_bytes(c@.iat) + l_nbf() + opt_int_bytes(
            c@.nbf,
        ) + l_aud() + opt_string_bytes(c@.aud) + l_jti() + json_string_bytes(c@.jti) + l_role()
            + roles_bytes(c@.role) + l_email() + opt_string_bytes(c@.email);
        assert(out@ == pre.push(0x7du8));
        assert(pre.push(0x7du8) =~= pre + seq![0x7du8]);
        assert(out@ == payload_bytes(c@));
    }
    out
}

/// Consume the exact byte sequence `lit` at position `p`.
pub open spec fn parse_lit(s: Seq<u8>, p: int, lit: Seq<u8>) -> Option<int> {
    if 0 <= p && p + lit.len() <= s.len() && s.subrange(p, p + lit.len()) == lit {
        Some(p + lit.len())
    } else {
        None
    }
}

/// An optional integer value: `null` or decimal text.
pub open spec fn parse_opt_int(s: Seq<u8>, p: int) -> Option<(Option<int>, int)> {
    match parse_lit(s, p, l_null()) {
        Some(q) => Some((None, q)),
        None => match crate::dectext::parse_int(s, p) {
            Some((v, q)) => Some((Some(v), q)),
            None => None,
        },
    }
}

/// An optional string value: `null` or a JSON string.
pub open spec fn parse_opt_string(s: Seq<u8>, p: int) -> Option<(Option<Seq<char>>, int)> {
    match parse_lit(s, p, l_null()) {
        Some(q) => Some((None, q)),
        None => match crate::jsontext::parse_jstring(s, p) {
            Some((v, q)) => Some((Some(v), q)),
            None => None,
        },
    }
}

/// The non-empty items of the role array, up to and over the closing
/// bracket.
pub open spec fn parse_roles_items(s: Seq<u8>, p: int) -> Option<(Seq<Seq<char>>, int)>
    decreases s.len() - p,
    via parse_roles_items_dec
{
    match crate::jsontext::parse_jstring(s, p) {
        Some((r, q)) => if q < s.len() && s[q] == 0x2c {
            match parse_roles_items(s, q + 1) {
                Some((rest, q2)) => Some((seq![r] + rest, q2)),
                None => None,
            }
        } else if q < s.len() && s[q] == 0x5d {
            Some((seq![r], q + 1))
        } else {
            None
        },
        None => None,
    }
}

#[via_fn]
proof fn parse_roles_items_dec(s: Seq<u8>, p: int) {
    crate::jsontext::lemma_parse_jstring_bounds(s, p);
}

/// The role array, brackets included.
pub open spec fn parse_roles(s: Seq<u8>, p: int) -> Option<(Seq<Seq<char>>, int)> {
    if 0 <= p < s.len() && s[p] == 0x5b {
        if p + 1 < s.len() && s[p + 1] == 0x5d {
            Some((Seq::empty(), p + 2))
        } else {
            parse_roles_items(s, p + 1)
        }
    } else {
        None
    }
}

/// Role items parsing always advances and stays in bounds.
pub proof fn lemma_parse_roles_items_bounds(s: Seq<u8>, p: int)
    ensures
        parse_roles_items(s, p) matches Some(r) ==> p < r.1 <= s.len(),
    decreases s.len() - p,
{
    crate::jsontext::lemma_parse_jstring_bounds(s, p);
    match crate::jsontext::parse_jstring(s, p) {
        Some((r, q)) => {
            if q < s.len() && s[q] == 0x2c {
                lemma_parse_roles_items_bounds(s, q + 1);
            }
        },
        None => {},
    }
}

/// Parse a whole payload object: every key in its fixed order, then the
/// closing brace, which must end the input.
pub open spec fn parse_payload(s: Seq<u8>) -> Option<ClaimsView> {
    match parse_lit(s, 0, l_sub()) {
        None => None,
        Some(p1) => match crate::jsontext::parse_jstring(s, p1) {
            None => None,
            Some((sub, p2)) => match parse_lit(s, p2, l_iss()) {
                None => None,
                Some(p3) => match crate::jsontext::parse_jstring(s, p3) {
                    None => None,
                    Some((iss, p4)) => match parse_lit(s, p4, l_exp()) {
                        None => None,
                        Some(p5) => match crate::dectext::parse_int(s, p5) {
                            None => None,
                            Some((exp, p6)) => match parse_lit(s, p6, l_iat()) {
                                None => None,
                                Some(p7) => match crate::dectext::parse_int(s, p7) {
                                    None => None,
                                    Some((iat, p8)) => match parse_lit(s, p8, l_nbf()) {
                                        None => None,
                                        Some(p9) => match parse_opt_int(s, p9) {
                                            None => None,
                                            Some((nbf, p10)) => match parse_lit(s, p10, l_aud()) {
                                                None => None,
                                                Some(p11) => match parse_opt_string(s, p11) {
                                                    None => None,
                                                    Some((aud, p12)) => match parse_lit(
                                                        s,
                                                        p12,
                                                        l_jti(),
                                                    ) {
                                                        None => None,
                                                        Some(p13) => match crate::jsontext::parse_jstring(
                                                            s,
                                                            p13,
                                                        ) {
                                                            None => None,
                                                            Some((jti, p14)) => match parse_lit(
                                                                s,
                                                                p14,
                                                                l_role(),
                                                            ) {
                                                                None => None,
                                                                Some(p15) => match parse_roles(
                                                                    s,
                                                                    p15,
                                                                ) {
                                                                    None => None,
                                                                    Some((role, p16)) => match parse_lit(
                                                                        s,
                                                                        p16,
                                                                        l_email(),
                                                                    ) {
                                                                        None => None,
                                                                        Some(p17) => match parse_opt_string(
                                                                            s,
                                                                            p17,
                                                                        ) {
                                                                            None => None,
                                                                            Some((email, p18)) => if p18
                                                                                + 1 == s.len()
                                                                                && s[p18] == 0x7d {
                                                                                Some(
                                                                                    ClaimsView {
                                                                                        sub,
                                                                                        iss,
                                                                                        exp,
                                                                                        iat,
                                                                                        nbf,
                                                                                        aud,
                                                                                        jti,
                                                                                        role,
                                                                                        email,
                                                                                    },
                                                                                )
                                                                            } else {
                                                                                None
                                                                            },
                                                                        },
                                                                    },
                                                                },
                                                            },
                                                        },
                                                    },
                                                },
                                            },
                                        },
                                    },
                                },
                            },
                        },
                    },
                },
            },
        },
    }
}

/// Consume four given bytes at `p`, as `parse_lit` describes.
fn eat4(s: &[u8], p: usize, b0: u8, b1: u8, b2: u8, b3: u8) -> (r: Option<usize>)
    requires
        p <= s@.len(),
    ensures
        match r {
            Some(q) => parse_lit(s@, p as int, seq![b0, b1, b2, b3]) == Some(q as int) && p < q
                <= s@.len(),
            None => parse_lit(s@, p as int, seq![b0, b1, b2, b3]) is None,
        },
{
    let n = s.len();
    let ghost lit = seq![b0, b1, b2, b3];
    if n - p >= 4 && s[p] == b0 && s[p + 1] == b1 && s[p + 2] == b2 && s[p + 3] == b3 {
        proof {
            assert(s@.subrange(p as int, p as int + 4) =~= lit);
        }
        Some(p + 4)
    } else {
        proof {
            if p + 4 <= s@.len() {
                let sr = s@.subrange(p as int, p as int + 4);
                if sr == lit {
                    assert(sr[0] == s@[p as int] && sr[1] == s@[p + 1] && sr[2] == s@[p + 2]
                        && sr[3] == s@[p + 3]);
                    assert(false);
                }
            }
        }
        None
    }
}

/// Consume seven given bytes at `p`, as `parse_lit` describes.
fn eat7(s: &[u8], p: usize, b0: u8, b1: u8, b2: u8, b3: u8, b4: u8, b5: u8, b6: u8) -> (r: Option<
    usize,
>)
    requires
        p <= s@.len(),
    ensures
        match r {
            Some(q) => parse_lit(s@, p as int, seq![b0, b1, b2, b3, b4, b5, b6]) == Some(q as int)
                && p < q <= s@.len(),
            None => parse_lit(s@, p as int, seq![b0, b1, b2, b3, b4, b5, b6]) is None,
        },
{
    let n = s.len();
    let ghost lit = seq![b0, b1, b2, b3, b4, b5, b6];
    if n - p >= 7 && s[p] == b0 && s[p + 1] == b1 && s[p + 2] == b2 && s[p + 3] == b3 && s[p + 4]
        == b4 && s[p + 5] == b5 && s[p + 6] == b6 {
        proof {
            assert(s@.subrange(p as int, p as int + 7) =~= lit);
        }
        Some(p + 7)
    } else {
        proof {
            if p + 7 <= s@.len() {
                let sr = s@.subrange(p as int, p as int + 7);
                if sr == lit {
                    assert(sr[0] == s@[p as int] && sr[1] == s@[p + 1] && sr[2] == s@[p + 2]
                        && sr[3] == s@[p + 3] && sr[4] == s@[p + 4] && sr[5] == s@[p + 5] && sr[6]
                        == s@[p + 6]);
                    assert(false);
                }
            }
        }
        None
    }
}

/// Consume nine given bytes at `p`, as `parse_lit` describes.
fn eat9(
    s: &[u8],
    p: usize,
    b0: u8,
    b1: u8,
    b2: u8,
    b3: u8,
    b4: u8,
    b5: u8,
    b6: u8,
    b7: u8,
    b8: u8,
) -> (r: Option<usize>)
    requires
        p <= s@.len(),
    ensures
        match r {
            Some(q) => parse_lit(s@, p as int, seq![b0, b1, b2, b3, b4, b5, b6, b7, b8]) == Some(
                q as int,
            ) && p < q <= s@.len(),
            None => parse_lit(s@, p as int, seq![b0, b1, b2, b3, b4, b5, b6, b7, b8]) is None,
        },
{
    let n = s.len();
    let ghost lit = seq![b0, b1, b2, b3, b4, b5, b6, b7, b8];
    if n - p >= 9 && s[p] == b0 && s[p + 1] == b1 && s[p + 2] == b2 && s[p + 3] == b3 && s[p + 4]
        == b4 && s[p + 5] == b5 && s[p + 6] == b6 && s[p + 7] == b7 && s[p + 8] == b8 {
        proof {
            assert(s@.subrange(p as int, p as int + 9) =~= lit);
        }
        Some(p + 9)
    } else {
        proof {
            if p + 9 <= s@.len() {
                let sr = s@.subrange(p as int, p as int + 9);
                if sr == lit {
                    assert(sr[0] == s@[p as int] && sr[1] == s@[p + 1] && sr[2] == s@[p + 2]
                        && sr[3] == s@[p + 3] && sr[4] == s@[p + 4] && sr[5] == s@[p + 5] && sr[6]
                        == s@[p + 6] && sr[7] == s@[p + 7] && sr[8] == s@[p + 8]);
                    assert(false);
                }
            }
        }
        None
    }
}

/// Consume an eight-byte key: seven bytes and a colon.
fn eat8k(s: &[u8], p: usize, b0: u8, b1: u8, b2: u8, b3: u8, b4: u8, b5: u8, b6: u8) -> (r: Option<
    usize,
>)
    requires
        p <= s@.len(),
    ensures
        match r {
            Some(q) => parse_lit(s@, p as int, seq![b0, b1, b2, b3, b4, b5, b6, 0x3au8]) == Some(
                q as int,
            ) && p < q <= s@.len(),
            None => parse_lit(s@, p as int, seq![b0, b1, b2, b3, b4, b5, b6, 0x3au8]) is None,
        },
{
    let n = s.len();
    let ghost lit = seq![b0, b1, b2, b3, b4, b5, b6, 0x3au8];
    if n - p >= 8 && s[p] == b0 && s[p + 1] == b1 && s[p + 2] == b2 && s[p + 3] == b3 && s[p + 4]
        == b4 && s[p + 5] == b5 && s[p + 6] == b6 && s[p + 7] == 0x3a {
        proof {
            assert(s@.subrange(p as int, p as int + 8) =~= lit);
        }
        Some(p + 8)
    } else {
        proof {
            if p + 8 <= s@.len() {
                let sr = s@.subrange(p as int, p as int + 8);
                if sr == lit {
                    assert(sr[0] == s@[p as int] && sr[1] == s@[p + 1] && sr[2] == s@[p + 2]
                        && sr[3] == s@[p + 3] && sr[4] == s@[p + 4] && sr[5] == s@[p + 5] && sr[6]
                        == s@[p + 6] && sr[7] == s@[p + 7]);
                    assert(false);
                }
            }
        }
        None
    }
}

/// Parse an optional integer value, as `parse_opt_int` describes.
fn parse_opt_int_exec(s: &[u8], p: usize) -> (r: Option<(Option<i64>, usize)>)
    requires
        p <= s@.len(),
    ensures
        match r {
            Some((v, q)) => parse_opt_int(s@, p as int) == Some(
                (
                    match v {
                        Some(x) => Some(x as int),
                        None => None::<int>,
                    },
                    q as int,
                ),
            ) && q <= s@.len(),
            None => parse_opt_int(s@, p as int) is None,
        },
{
    proof {
        assert(l_null() == seq![0x6eu8, 0x75u8, 0x6cu8, 0x6cu8]);
    }
    match eat4(s, p, 0x6e, 0x75, 0x6c, 0x6c) {
        Some(q) => Some((None, q)),
        None => {
            match crate::dectext::parse_int_exec(s, p) {
                Some((v, q)) => Some((Some(v), q)),
                None => None,
            }
        },
    }
}

/// Parse an optional string value, as `parse_opt_string` describes.
fn parse_opt_string_exec(s: &[u8], p: usize) -> (r: Option<(Option<String>, usize)>)
    requires
        p <= s@.len(),
    ensures
        match r {
            Some((v, q)) => parse_opt_string(s@, p as int) == Some(
                (
                    match v {
                        Some(x) => Some(x@),
                        None => None::<Seq<char>>,
                    },
                    q as int,
                ),
            ) && q <= s@.len(),
            None => parse_opt_string(s@, p as int) is None,
        },
{
    proof {
        assert(l_null() == seq![0x6eu8, 0x75u8, 0x6cu8, 0x6cu8]);
    }
    match eat4(s, p, 0x6e, 0x75, 0x6c, 0x6c) {
        Some(q) => Some((None, q)),
        None => {
            match crate::jsontext::parse_jstring_exec(s, p) {
                Some((v, q)) => Some((Some(v), q)),
                None => None,
            }
        },
    }
}

/// Parse the role array at `p`, as `parse_roles` describes.
fn parse_roles_exec(s: &[u8], p: usize) -> (r: Option<(Vec<String>, usize)>)
    requires
        p <= s@.len(),
    ensures
        match r {
            Some((v, q)) => parse_roles(s@, p as int) == Some((v.deep_view(), q as int)) && q
                <= s@.len(),
            None => parse_roles(s@, p as int) is None,
        },
{
    let n = s.len();
    if p >= n || s[p] != 0x5b {
        return None;
    }
    if p + 1 < n && s[p + 1] == 0x5d {
        let empty: Vec<String> = Vec::new();
        proof {
            assert(empty.deep_view() =~= Seq::<Seq<char>>::empty());
        }
        return Some((empty, p + 2));
    }
    let mut acc: Vec<String> = Vec::new();
    let mut cur = p + 1;
    proof {
        lemma_parse_roles_items_bounds(s@, cur as int);
        let res = parse_roles_items(s@, cur as int);
        if res is Some {
            assert(acc.deep_view() + res->Some_0.0 =~= res->Some_0.0);
        }
    }
    loop
        invariant
            p + 1 <= cur <= n,
            n == s@.len(),
            parse_roles(s@, p as int) == parse_roles_items(s@, p + 1),
            match parse_roles_items(s@, cur as int) {
                Some((r2, q)) => parse_roles_items(s@, p + 1) == Some((acc.deep_view() + r2, q))
                    && q <= s@.len(),
                None => parse_roles_items(s@, p + 1) is None,
            },
        decreases n - cur,
    {
        let ghost acc0 = acc.deep_view();
        let (item, q) = match crate::jsontext::parse_jstring_exec(s, cur) {
            Some(x) => x,
            None => {
                return None;
            },
        };
        if q < n && s[q] == 0x2c {
            acc.push(item);
            cur = q + 1;
            proof {
                lemma_parse_roles_items_bounds(s@, cur as int);
                assert(acc.deep_view() =~= acc0.push(item@));
                let res = parse_roles_items(s@, cur as int);
                if res is Some {
                    let r2 = res->Some_0.0;
                    assert(acc0 + (seq![item@] + r2) =~= acc.deep_view() + r2);
                }
            }
        } else if q < n && s[q] == 0x5d {
            acc.push(item);
            proof {
                assert(acc.deep_view() =~= acc0.push(item@));
                assert(acc0 + seq![item@] =~= acc.deep_view());
            }
            return Some((acc, q + 1));
        } else {
            return None;
        }
    }
}

/// Parse a whole payload object, as `parse_payload` describes.
#[verifier::rlimit(60)]
pub fn parse_payload_exec(s: &[u8]) -> (r: Option<Claims>)
    ensures
        match r {
            Some(c) => parse_payload(s@) == Some(c@),
            None => parse_payload(s@) is None,
        },
{
    proof {
        assert(l_sub() == seq![0x7bu8, 0x22u8, 0x73u8, 0x75u8, 0x62u8, 0x22u8, 0x3au8]);
        assert(l_iss() == seq![0x2cu8, 0x22u8, 0x69u8, 0x73u8, 0x73u8, 0x22u8, 0x3au8]);
        assert(l_exp() == seq![0x2cu8, 0x22u8, 0x65u8, 0x78u8, 0x70u8, 0x22u8, 0x3au8]);
        assert(l_iat() == seq![0x2cu8, 0x22u8, 0x69u8, 0x61u8, 0x74u8, 0x22u8, 0x3au8]);
        assert(l_nbf() == seq![0x2cu8, 0x22u8, 0x6eu8, 0x62u8, 0x66u8, 0x22u8, 0x3au8]);
        assert(l_aud() == seq![0x2cu8, 0x22u8, 0x61u8, 0x75u8, 0x64u8, 0x22u8, 0x3au8]);
        assert(l_jti() == seq![0x2cu8, 0x22u8, 0x6au8, 0x74u8, 0x69u8, 0x22u8, 0x3au8]);
        assert(l_role() == seq![0x2cu8, 0x22u8, 0x72u8, 0x6fu8, 0x6cu8, 0x65u8, 0x22u8, 0x3au8]);
        assert(l_email() == seq![0x2cu8, 0x22u8, 0x65u8, 0x6du8, 0x61u8, 0x69u8, 0x6cu8, 0x22u8,
            0x3au8]);
    }
    let p1 = match eat7(s, 0, 0x7b, 0x22, 0x73, 0x75, 0x62, 0x22, 0x3a) {
        Some(q) => q,
        None => {
            return None;
        },
    };
    let (sub, p2) = match crate::jsontext::parse_jstring_exec(s, p1) {
        Some(x) => x,
        None => {
            return None;
        },
    };
    let p3 = match eat7(s, p2, 0x2c, 0x22, 0x69, 0x73, 0x73, 0x22, 0x3a) {
        Some(q) => q,
        None => {
            return None;
        },
    };
    let (iss, p4) = match crate::jsontext::parse_jstring_exec(s, p3) {
        Some(x) => x,
        None => {
            return None;
        },
    };
    let p5 = match eat7(s, p4, 0x2c, 0x22, 0x65, 0x78, 0x70, 0x22, 0x3a) {
        Some(q) => q,
        None => {
            return None;
        },
    };
    let (exp, p6) = match crate::dectext::parse_int_exec(s, p5) {
        Some(x) => x,
        None => {
            return None;
        },
    };
    let p7 = match eat7(s, p6, 0x2c, 0x22, 0x69, 0x61, 0x74, 0x22, 0x3a) {
        Some(q) => q,
        None => {
            return None;
        },
    };
    let (iat, p8) = match crate::dectext::parse_int_exec(s, p7) {
        Some(x) => x,
        None => {
            return None;
        },
    };
    let p9 = match eat7(s, p8, 0x2c, 0x22, 0x6e, 0x62, 0x66, 0x22, 0x3a) {
        Some(q) => q,
        None => {
            return None;
        },
    };
    let (nbf, p10) = match parse_opt_int_exec(s, p9) {
        Some(x) => x,
        None => {
            return None;
        },
    };
    let p11 = match eat7(s, p10, 0x2c, 0x22, 0x61, 0x75, 0x64, 0x22, 0x3a) {
        Some(q) => q,
        None => {
            return None;
        },
    };
    let (aud, p12) = match parse_opt_string_exec(s, p11) {
        Some(x) => x,
        None => {
            return None;
        },
    };
    let p13 = match eat7(s, p12, 0x2c, 0x22, 0x6a, 0x74, 0x69, 0x22, 0x3a) {
        Some(q) => q,
        None => {
            return None;
        },
    };
    let (jti, p14) = match crate::jsontext::parse_jstring_exec(s, p13) {
        Some(x) => x,
        None => {
            return None;
        },
    };
    let p15 = match eat8k(s, p14, 0x2c, 0x22, 0x72, 0x6f, 0x6c, 0x65, 0x22) {
        Some(q) => q,
        None => {
            return None;
        },
    };
    let (role, p16) = match parse_roles_exec(s, p15) {
        Some(x) => x,
        None => {
            return None;
        },
    };
    let p17 = match eat9(s, p16, 0x2c, 0x22, 0x65, 0x6d, 0x61, 0x69, 0x6c, 0x22, 0x3a) {
        Some(q) => q,
        None => {
            return None;
        },
    };
    let (email, p18) = match parse_opt_string_exec(s, p17) {
        Some(x) => x,
        None => {
            return None;
        },
    };
    if p18 < s.len() && p18 + 1 == s.len() && s[p18] == 0x7d {
        let c = Claims { sub, iss, exp, iat, nbf, aud, jti, role, email };
        proof {
            assert(parse_payload(s@) == Some(c@)) by {
                assert(parse_payload(s@)->Some_0 =~= c@);
            }
        }
        Some(c)
    } else {
        None
    }
}

/// The payload's segments in order: literal keys alternating with the
/// field values, ending with the closing brace.
pub open spec fn seg(c: ClaimsView, k: int) -> Seq<u8> {
    if k == 1 {
        l_sub()
    } else if k == 2 {
        json_string_bytes(c.sub)
    } else if k == 3 {
        l_iss()
    } else if k == 4 {
        json_string_bytes(c.iss)
    } else if k == 5 {
        l_exp()
    } else if k == 6 {
        int_bytes(c.exp)
    } else if k == 7 {
        l_iat()
    } else if k == 8 {
        int_bytes(c.iat)
    } else if k == 9 {
        l_nbf()
    } else if k == 10 {
        opt_int_bytes(c.nbf)
    } else if k == 11 {
        l_aud()
    } else if k == 12 {
        opt_string_bytes(c.aud)
    } else if k == 13 {
        l_jti()
    } else if k == 14 {
        json_string_bytes(c.jti)
    } else if k == 15 {
        l_role()
    } else if k == 16 {
        roles_bytes(c.role)
    } else if k == 17 {
        l_email()
    } else if k == 18 {
        opt_string_bytes(c.email)
    } else {
        seq![0x7du8]
    }
}

/// The first `k` segments, concatenated.
pub open spec fn pre(c: ClaimsView, k: int) -> Seq<u8>
    decreases k,
{
    if k <= 0 {
        Seq::empty()
    } else {
        pre(c, k - 1) + seg(c, k)
    }
}

/// Offset of the end of segment `k`.
pub open spec fn off(c: ClaimsView, k: int) -> int
    decreases k,
{
    if k <= 0 {
        0
    } else {
        off(c, k - 1) + seg(c, k).len()
    }
}

proof fn lemma_pre_len(c: ClaimsView, k: int)
    ensures
        pre(c, k).len() == off(c, k),
        off(c, k) >= 0,
    decreases k,
{
    if k > 0 {
        lemma_pre_len(c, k - 1);
    }
}

/// The payload is the concatenation of its nineteen segments.
proof fn lemma_payload_is_pre(c: ClaimsView)
    ensures
        payload_bytes(c) == pre(c, 19),
{
    reveal(payload_bytes);
    assert(pre(c, 0) == Seq::<u8>::empty());
    assert(Seq::<u8>::empty() + seg(c, 1) =~= seg(c, 1));
    assert(pre(c, 1) == pre(c, 0) + seg(c, 1));
    assert(pre(c, 2) == pre(c, 1) + seg(c, 2));
    assert(pre(c, 3) == pre(c, 2) + seg(c, 3));
    assert(pre(c, 4) == pre(c, 3) + seg(c, 4));
    assert(pre(c, 5) == pre(c, 4) + seg(c, 5));
    assert(pre(c, 6) == pre(c, 5) + seg(c, 6));
    assert(pre(c, 7) == pre(c, 6) + seg(c, 7));
    assert(pre(c, 8) == pre(c, 7) + seg(c, 8));
    assert(pre(c, 9) == pre(c, 8) + seg(c, 9));
    assert(pre(c, 10) == pre(c, 9) + seg(c, 10));
    assert(pre(c, 11) == pre(c, 10) + seg(c, 11));
    assert(pre(c, 12) == pre(c, 11) + seg(c, 12));
    assert(pre(c, 13) == pre(c, 12) + seg(c, 13));
    assert(pre(c, 14) == pre(c, 13) + seg(c, 14));
    assert(pre(c, 15) == pre(c, 14) + seg(c, 15));
    assert(pre(c, 16) == pre(c, 15) + seg(c, 16));
    assert(pre(c, 17) == pre(c, 16) + seg(c, 17));
    assert(pre(c, 18) == pre(c, 17) + seg(c, 18));
    assert(pre(c, 19) == pre(c, 18) + seg(c, 19));
    assert(pre(c, 1) == seg(c, 1));
}

proof fn lemma_off_mono(c: ClaimsView, k: int, m: int)
    requires
        0 <= k <= m,
    ensures
        off(c, k) <= off(c, m),
    decreases m - k,
{
    if k < m {
        lemma_off_mono(c, k, m - 1);
    }
}

/// Each segment stands at its offset inside any longer prefix.
proof fn lemma_pre_subrange(c: ClaimsView, k: int, m: int)
    requires
        1 <= k <= m,
    ensures
        pre(c, m).subrange(off(c, k - 1), off(c, k)) == seg(c, k),
    decreases m,
{
    lemma_pre_len(c, k - 1);
    lemma_pre_len(c, k);
    lemma_pre_len(c, m);
    if k == m {
        assert(pre(c, m).subrange(off(c, m - 1), off(c, m)) =~= seg(c, m));
    } else {
        lemma_pre_subrange(c, k, m - 1);
        lemma_pre_len(c, m - 1);
        lemma_off_mono(c, k, m - 1);
        assert(pre(c, m).subrange(off(c, k - 1), off(c, k)) =~= pre(c, m - 1).subrange(
            off(c, k - 1),
            off(c, k),
        ));
    }
}

/// The first byte of an integer text is a minus sign or a digit.
proof fn lemma_int_bytes_first(v: int)
    ensures
        int_bytes(v).len() >= 1,
        int_bytes(v)[0] == 0x2d || crate::dectext::is_digit(int_bytes(v)[0]),
{
    if v < 0 {
        crate::dectext::lemma_dec_digits_are_digits((-v) as nat);
    } else {
        crate::dectext::lemma_dec_digits_are_digits(v as nat);
        assert(int_bytes(v)[0] == crate::dectext::dec_digits(v as nat)[0]);
    }
}

/// Parsing the item texts of a non-empty role list recovers the list and
/// ends right after the closing bracket that follows them.
proof fn lemma_parse_roles_items(s: Seq<u8>, p: int, rs: Seq<Seq<char>>)
    requires
        rs.len() >= 1,
        0 <= p,
        p + roles_items_bytes(rs).len() < s.len(),
        s.subrange(p, p + roles_items_bytes(rs).len()) == roles_items_bytes(rs),
        s[p + roles_items_bytes(rs).len()] == 0x5d,
    ensures
        parse_roles_items(s, p) == Some((rs, p + roles_items_bytes(rs).len() + 1)),
    decreases rs.len(),
{
    let items = roles_items_bytes(rs);
    let j = json_string_bytes(rs[0]);
    if rs.len() == 1 {
        assert(items == j);
        crate::jsontext::lemma_parse_json_string(s, p, rs[0]);
        let e = p + j.len();
        assert(crate::jsontext::parse_jstring(s, p) == Some((rs[0], e)));
        assert(s[e] == 0x5d);
        assert(parse_roles_items(s, p) == Some((seq![rs[0]], e + 1)));
        assert(seq![rs[0]] =~= rs);
    } else {
        let tail = rs.skip(1);
        assert(items == j + seq![0x2cu8] + roles_items_bytes(tail));
        let sr = s.subrange(p, p + items.len());
        assert(s.subrange(p, p + j.len()) == j) by {
            assert forall|i: int| 0 <= i < j.len() implies s.subrange(p, p + j.len())[i]
                == j[i] by {
                assert(sr[i] == s[p + i]);
                assert(items[i] == j[i]);
            }
            assert(s.subrange(p, p + j.len()) =~= j);
        }
        crate::jsontext::lemma_parse_json_string(s, p, rs[0]);
        let e = p + j.len();
        assert(sr[j.len() as int] == s[e]);
        assert(items[j.len() as int] == 0x2c);
        assert(s[e] == 0x2c);
        let p2 = e + 1;
        assert(s.subrange(p2, p2 + roles_items_bytes(tail).len()) == roles_items_bytes(tail)) by {
            assert forall|i: int| 0 <= i < roles_items_bytes(tail).len() implies s.subrange(
                p2,
                p2 + roles_items_bytes(tail).len(),
            )[i] == roles_items_bytes(tail)[i] by {
                assert(sr[j.len() + 1 + i] == s[p2 + i]);
                assert(items[j.len() + 1 + i] == roles_items_bytes(tail)[i]);
            }
            assert(s.subrange(p2, p2 + roles_items_bytes(tail).len()) =~= roles_items_bytes(tail));
        }
        lemma_parse_roles_items(s, p2, tail);
        assert(parse_roles_items(s, p) == Some(
            (seq![rs[0]] + tail, p2 + roles_items_bytes(tail).len() + 1),
        ));
        assert(seq![rs[0]] + tail =~= rs);
    }
}

/// Parsing a whole encoded role array recovers the list.
proof fn lemma_parse_roles(s: Seq<u8>, p: int, rs: Seq<Seq<char>>)
    requires
        0 <= p,
        p + roles_bytes(rs).len() <= s.len(),
        s.subrange(p, p + roles_bytes(rs).len()) == roles_bytes(rs),
    ensures
        parse_roles(s, p) == Some((rs, p + roles_bytes(rs).len())),
{
    let rb = roles_bytes(rs);
    let items = roles_items_bytes(rs);
    let sr = s.subrange(p, p + rb.len());
    assert(sr[0] == s[p]);
    assert(rb[0] == 0x5b);
    assert(sr[rb.len() - 1] == s[p + rb.len() - 1]);
    assert(rb[rb.len() - 1] == 0x5d);
    if rs.len() == 0 {
        assert(items.len() == 0);
        assert(rb.len() == 2);
        assert(sr[1] == s[p + 1]);
        assert(rb[1] == 0x5d);
        assert(parse_roles(s, p) == Some((Seq::<Seq<char>>::empty(), p + 2)));
        assert(Seq::<Seq<char>>::empty() =~= rs);
    } else {
        assert(json_string_bytes(rs[0]).len() >= 2);
        assert(items[0] == json_string_bytes(rs[0])[0]) by {
            if rs.len() == 1 {
            } else {
                assert(items == json_string_bytes(rs[0]) + seq![0x2cu8] + roles_items_bytes(
                    rs.skip(1),
                ));
            }
        }
        assert(items[0] == 0x22);
        assert(sr[1] == s[p + 1]);
        assert(rb[1] == items[0]);
        assert(s[p + 1] == 0x22);
        assert(s.subrange(p + 1, p + 1 + items.len()) == items) by {
            assert forall|i: int| 0 <= i < items.len() implies s.subrange(
                p + 1,
                p + 1 + items.len(),
            )[i] == items[i] by {
                assert(sr[1 + i] == s[p + 1 + i]);
                assert(rb[1 + i] == items[i]);
            }
            assert(s.subrange(p + 1, p + 1 + items.len()) =~= items);
        }
        assert(s[p + 1 + items.len()] == 0x5d);
        lemma_parse_roles_items(s, p + 1, rs);
        assert(parse_roles_items(s, p + 1) == Some((rs, p + 1 + items.len() + 1)));
    }
}


/// The offsets and contents of the nineteen payload segments.
#[verifier::rlimit(100)]
proof fn lemma_payload_segments(c: ClaimsView)
    ensures
        off(c, 0) == 0,
        payload_bytes(c).len() == off(c, 19),
        off(c, 1) == off(c, 0) + l_sub().len(),
        0 <= off(c, 0) && off(c, 1) <= payload_bytes(c).len(),
        payload_bytes(c).subrange(off(c, 0), off(c, 1)) == l_sub(),
        off(c, 2) == off(c, 1) + json_string_bytes(c.sub).len(),
        0 <= off(c, 1) && off(c, 2) <= payload_bytes(c).len(),
        payload_bytes(c).subrange(off(c, 1), off(c, 2)) == json_string_bytes(c.sub),
        off(c, 3) == off(c, 2) + l_iss().len(),
        0 <= off(c, 2) && off(c, 3) <= payload_bytes(c).len(),
        payload_bytes(c).subrange(off(c, 2), off(c, 3)) == l_iss(),
        off(c, 4) == off(c, 3) + json_string_bytes(c.iss).len(),
        0 <= off(c, 3) && off(c, 4) <= payload_bytes(c).len(),
        payload_bytes(c).subrange(off(c, 3), off(c, 4)) == json_string_bytes(c.iss),
        off(c, 5) == off(c, 4) + l_exp().len(),
        0 <= off(c, 4) && off(c, 5) <= payload_bytes(c).len(),
        payload_bytes(c).subrange(off(c, 4), off(c, 5)) == l_exp(),
        off(c, 6) == off(c, 5) + int_bytes(c.exp).len(),
        0 <= off(c, 5) && off(c, 6) <= payload_bytes(c).len(),
        payload_bytes(c).subrange(off(c, 5), off(c, 6)) == int_bytes(c.exp),
        off(c, 7) == off(c, 6) + l_iat().len(),
        0 <= off(c, 6) && off(c, 7) <= payload_bytes(c).len(),
        payload_bytes(c).subrange(off(c, 6), off(c, 7)) == l_iat(),
        off(c, 8) == off(c, 7) + int_bytes(c.iat).len(),
        0 <= off(c, 7) && off(c, 8) <= payload_bytes(c).len(),
        payload_bytes(c).subrange(off(c, 7), off(c, 8)) == int_bytes(c.iat),
        off(c, 9) == off(c, 8) + l_nbf().len(),
        0 <= off(c, 8) && off(c, 9) <= payload_bytes(c).len(),
        payload_bytes(c).subrange(off(c, 8), off(c, 9)) == l_nbf(),
        off(c, 10) == off(c, 9) + opt_int_bytes(c.nbf).len(),
        0 <= off(c, 9) && off(c, 10) <= payload_bytes(c).len(),
        payload_bytes(c).subrange(off(c, 9), off(c, 10)) == opt_int_bytes(c.nbf),
        off(c, 11) == off(c, 10) + l_aud().len(),
        0 <= off(c, 10) && off(c, 11) <= payload_bytes(c).len(),
        payload_bytes(c).subrange(off(c, 10), off(c, 11)) == l_aud(),
        off(c, 12) == off(c, 11) + opt_string_bytes(c.aud).len(),
        0 <= off(c, 11) && off(c, 12) <= payload_bytes(c).len(),
        payload_bytes(c).subrange(off(c, 11), off(c, 12)) == opt_string_bytes(c.aud),
        off(c, 13) == off(c, 12) + l_jti().len(),
        0 <= off(c, 12) && off(c, 13) <= payload_bytes(c).len(),
        payload_bytes(c).subrange(off(c, 12), off(c, 13)) == l_jti(),
        off(c, 14) == off(c, 13) + json_string_bytes(c.jti).len(),
        0 <= off(c, 13) && off(c, 14) <= payload_bytes(c).len(),
        payload_bytes(c).subrange(off(c, 13), off(c, 14)) == json_string_bytes(c.jti),
        off(c, 15) == off(c, 14) + l_role().len(),
        0 <= off(c, 14) && off(c, 15) <= payload_bytes(c).len(),
        payload_bytes(c).subrange(off(c, 14), off(c, 15)) == l_role(),
        off(c, 16) == off(c, 15) + roles_bytes(c.role).len(),
        0 <= off(c, 15) && off(c, 16) <= payload_bytes(c).len(),
        payload_bytes(c).subrange(off(c, 15), off(c, 16)) == roles_bytes(c.role),
        off(c, 17) == off(c, 16) + l_email().len(),
        0 <= off(c, 16) && off(c, 17) <= payload_bytes(c).len(),
        payload_bytes(c).subrange(off(c, 16), off(c, 17)) == l_email(),
        off(c, 18) == off(c, 17) + opt_string_bytes(c.email).len(),
        0 <= off(c, 17) && off(c, 18) <= payload_bytes(c).len(),
        payload_bytes(c).subrange(off(c, 17), off(c, 18)) == opt_string_bytes(c.email),
        off(c, 19) == off(c, 18) + seq![0x7du8].len(),
        0 <= off(c, 18) && off(c, 19) <= payload_bytes(c).len(),
        payload_bytes(c).subrange(off(c, 18), off(c, 19)) == seq![0x7du8],
{
    lemma_payload_is_pre(c);
    lemma_pre_len(c, 19);
    lemma_pre_subrange(c, 1, 19);
    lemma_off_mono(c, 1, 19);
    lemma_pre_len(c, 1);
    assert(off(c, 1) == off(c, 0) + seg(c, 1).len());
    assert(seg(c, 1) == l_sub());
    lemma_pre_subrange(c, 2, 19);
    lemma_off_mono(c, 2, 19);
    lemma_pre_len(c, 2);
    assert(off(c, 2) == off(c, 1) + seg(c, 2).len());
    assert(seg(c, 2) == json_string_bytes(c.sub));
    lemma_pre_subrange(c, 3, 19);
    lemma_off_mono(c, 3, 19);
    lemma_pre_len(c, 3);
    assert(off(c, 3) == off(c, 2) + seg(c, 3).len());
    assert(seg(c, 3) == l_iss());
    lemma_pre_subrange(c, 4, 19);
    lemma_off_mono(c, 4, 19);
    lemma_pre_len(c, 4);
    assert(off(c, 4) == off(c, 3) + seg(c, 4).len());
    assert(seg(c, 4) == json_string_bytes(c.iss));
    lemma_pre_subrange(c, 5, 19);
    lemma_off_mono(c, 5, 19);
    lemma_pre_len(c, 5);
    assert(off(c, 5) == off(c, 4) + seg(c, 5).len());
    assert(seg(c, 5) == l_exp());
    lemma_pre_subrange(c, 6, 19);
    lemma_off_mono(c, 6, 19);
    lemma_pre_len(c, 6);
    assert(off(c, 6) == off(c, 5) + seg(c, 6).len());
    assert(seg(c, 6) == int_bytes(c.exp));
    lemma_pre_subrange(c, 7, 19);
    lemma_off_mono(c, 7, 19);
    lemma_pre_len(c, 7);
    assert(off(c, 7) == off(c, 6) + seg(c, 7).len());
    assert(seg(c, 7) == l_iat());
    lemma_pre_subrange(c, 8, 19);
    lemma_off_mono(c, 8, 19);
    lemma_pre_len(c, 8);
    assert(off(c, 8) == off(c, 7) + seg(c, 8).len());
    assert(seg(c, 8) == int_bytes(c.iat));
    lemma_pre_subrange(c, 9, 19);
    lemma_off_mono(c, 9, 19);
    lemma_pre_len(c, 9);
    assert(off(c, 9) == off(c, 8) + seg(c, 9).len());
    assert(seg(c, 9) == l_nbf());
    lemma_pre_subrange(c, 10, 19);
    lemma_off_mono(c, 10, 19);
    lemma_pre_len(c, 10);
    assert(off(c, 10) == off(c, 9) + seg(c, 10).len());
    assert(seg(c, 10) == opt_int_bytes(c.nbf));
    lemma_pre_subrange(c, 11, 19);
    lemma_off_mono(c, 11, 19);
    lemma_pre_len(c, 11);
    assert(off(c, 11) == off(c, 10) + seg(c, 11).len());
    assert(seg(c, 11) == l_aud());
    lemma_pre_subrange(c, 12, 19);
    lemma_off_mono(c, 12, 19);
    lemma_pre_len(c, 12);
    assert(off(c, 12) == off(c, 11) + seg(c, 12).len());
    assert(seg(c, 12) == opt_string_bytes(c.aud));
    lemma_pre_subrange(c, 13, 19);
    lemma_off_mono(c, 13, 19);
    lemma_pre_len(c, 13);
    assert(off(c, 13) == off(c, 12) + seg(c, 13).len());
    assert(seg(c, 13) == l_jti());
    lemma_pre_subrange(c, 14, 19);
    lemma_off_mono(c, 14, 19);
    lemma_pre_len(c, 14);
    assert(off(c, 14) == off(c, 13) + seg(c, 14).len());
    assert(seg(c, 14) == json_string_bytes(c.jti));
    lemma_pre_subrange(c, 15, 19);
    lemma_off_mono(c, 15, 19);
    lemma_pre_len(c, 15);
    assert(off(c, 15) == off(c, 14) + seg(c, 15).len());
    assert(seg(c, 15) == l_role());
    lemma_pre_subrange(c, 16, 19);
    lemma_off_mono(c, 16, 19);
    lemma_pre_len(c, 16);
    assert(off(c, 16) == off(c, 15) + seg(c, 16).len());
    assert(seg(c, 16) == roles_bytes(c.role));
    lemma_pre_subrange(c, 17, 19);
    lemma_off_mono(c, 17, 19);
    lemma_pre_len(c, 17);
    assert(off(c, 17) == off(c, 16) + seg(c, 17).len());
    assert(seg(c, 17) == l_email());
    lemma_pre_subrange(c, 18, 19);
    lemma_off_mono(c, 18, 19);
    lemma_pre_len(c, 18);
    assert(off(c, 18) == off(c, 17) + seg(c, 18).len());
    assert(seg(c, 18) == opt_string_bytes(c.email));
    lemma_pre_subrange(c, 19, 19);
    lemma_off_mono(c, 19, 19);
    lemma_pre_len(c, 19);
    assert(off(c, 19) == off(c, 18) + seg(c, 19).len());
    assert(seg(c, 19) == seq![0x7du8]);
}

/// The subject, issuer and expiry fields parse to the claim values.
#[verifier::rlimit(100)]
proof fn lemma_payload_fields_a1(c: ClaimsView)
    requires
        crate::claims::claims_wf(c),
    ensures
        parse_lit(payload_bytes(c), 0, l_sub()) == Some(off(c, 1)),
        crate::jsontext::parse_jstring(payload_bytes(c), off(c, 1)) == Some((c.sub, off(c, 2))),
        parse_lit(payload_bytes(c), off(c, 2), l_iss()) == Some(off(c, 3)),
        crate::jsontext::parse_jstring(payload_bytes(c), off(c, 3)) == Some((c.iss, off(c, 4))),
        parse_lit(payload_bytes(c), off(c, 4), l_exp()) == Some(off(c, 5)),
        crate::dectext::parse_int(payload_bytes(c), off(c, 5)) == Some((c.exp, off(c, 6))),
{
    let s = payload_bytes(c);
    lemma_payload_segments(c);
    let o1 = off(c, 1);
    let o2 = off(c, 2);
    let o3 = off(c, 3);
    let o4 = off(c, 4);
    let o5 = off(c, 5);
    let o6 = off(c, 6);
    let o7 = off(c, 7);
    assert(parse_lit(s, 0, l_sub()) == Some(o1));
    crate::jsontext::lemma_parse_json_string(s, o1, c.sub);
    assert(parse_lit(s, o2, l_iss()) == Some(o3));
    crate::jsontext::lemma_parse_json_string(s, o3, c.iss);
    assert(parse_lit(s, o4, l_exp()) == Some(o5));
    assert(s.subrange(o6, o7)[0] == s[o6]);
    assert(!crate::dectext::is_digit(s[o6]));
    crate::dectext::lemma_parse_int_bytes(s, o5, c.exp);
}

/// The issued-at and not-before fields parse to the claim values.
#[verifier::rlimit(100)]
proof fn lemma_payload_fields_a2(c: ClaimsView)
    requires
        crate::claims::claims_wf(c),
    ensures
        parse_lit(payload_bytes(c), off(c, 6), l_iat()) == Some(off(c, 7)),
        crate::dectext::parse_int(payload_bytes(c), off(c, 7)) == Some((c.iat, off(c, 8))),
        parse_lit(payload_bytes(c), off(c, 8), l_nbf()) == Some(off(c, 9)),
        parse_opt_int(payload_bytes(c), off(c, 9)) == Some((c.nbf, off(c, 10))),
{
    let s = payload_bytes(c);
    lemma_payload_segments(c);
    let o6 = off(c, 6);
    let o7 = off(c, 7);
    let o8 = off(c, 8);
    let o9 = off(c, 9);
    let o10 = off(c, 10);
    let o11 = off(c, 11);
    assert(parse_lit(s, o6, l_iat()) == Some(o7));
    assert(s.subrange(o8, o9)[0] == s[o8]);
    assert(!crate::dectext::is_digit(s[o8]));
    crate::dectext::lemma_parse_int_bytes(s, o7, c.iat);
    assert(parse_lit(s, o8, l_nbf()) == Some(o9));
    match c.nbf {
        Some(v) => {
            lemma_int_bytes_first(v);
            assert(s.subrange(o9, o10)[0] == s[o9]);
            assert(s[o9] == int_bytes(v)[0]);
            if parse_lit(s, o9, l_null()) is Some {
                assert(s.subrange(o9, o9 + 4)[0] == s[o9]);
                assert(s[o9] == 0x6e);
                assert(false);
            }
            assert(s.subrange(o10, o11)[0] == s[o10]);
            assert(!crate::dectext::is_digit(s[o10]));
            crate::dectext::lemma_parse_int_bytes(s, o9, v);
            assert(parse_opt_int(s, o9) == Some((Some(v), o10)));
        },
        None => {
            assert(parse_lit(s, o9, l_null()) == Some(o10));
            assert(parse_opt_int(s, o9) == Some((None::<int>, o10)));
        },
    }
}

/// The second half of the payload fields parse to the claim values.
#[verifier::rlimit(100)]
proof fn lemma_payload_fields_b(c: ClaimsView)
    requires
        crate::claims::claims_wf(c),
    ensures
        parse_lit(payload_bytes(c), off(c, 10), l_aud()) == Some(off(c, 11)),
        parse_opt_string(payload_bytes(c), off(c, 11)) == Some((c.aud, off(c, 12))),
        parse_lit(payload_bytes(c), off(c, 12), l_jti()) == Some(off(c, 13)),
        crate::jsontext::parse_jstring(payload_bytes(c), off(c, 13)) == Some((c.jti, off(c, 14))),
        parse_lit(payload_bytes(c), off(c, 14), l_role()) == Some(off(c, 15)),
        parse_roles(payload_bytes(c), off(c, 15)) == Some((c.role, off(c, 16))),
        parse_lit(payload_bytes(c), off(c, 16), l_email()) == Some(off(c, 17)),
        parse_opt_string(payload_bytes(c), off(c, 17)) == Some((c.email, off(c, 18))),
        off(c, 18) + 1 == payload_bytes(c).len(),
        off(c, 18) < payload_bytes(c).len(),
        payload_bytes(c)[off(c, 18)] == 0x7d,
{
    let s = payload_bytes(c);
    lemma_payload_segments(c);
    let o10 = off(c, 10);
    let o11 = off(c, 11);
    let o12 = off(c, 12);
    let o13 = off(c, 13);
    let o14 = off(c, 14);
    let o15 = off(c, 15);
    let o16 = off(c, 16);
    let o17 = off(c, 17);
    let o18 = off(c, 18);
    let o19 = off(c, 19);
    assert(parse_lit(s, o10, l_aud()) == Some(o11));
    match c.aud {
        Some(a) => {
            assert(s.subrange(o11, o12)[0] == s[o11]);
            assert(s[o11] == json_string_bytes(a)[0]);
            assert(s[o11] == 0x22);
            if parse_lit(s, o11, l_null()) is Some {
                assert(s.subrange(o11, o11 + 4)[0] == s[o11]);
                assert(false);
            }
            crate::jsontext::lemma_parse_json_string(s, o11, a);
            assert(parse_opt_string(s, o11) == Some((Some(a), o12)));
        },
        None => {
            assert(parse_lit(s, o11, l_null()) == Some(o12));
            assert(parse_opt_string(s, o11) == Some((None::<Seq<char>>, o12)));
        },
    }
    assert(parse_lit(s, o12, l_jti()) == Some(o13));
    crate::jsontext::lemma_parse_json_string(s, o13, c.jti);
    assert(parse_lit(s, o14, l_role()) == Some(o15));
    lemma_parse_roles(s, o15, c.role);
    assert(parse_lit(s, o16, l_email()) == Some(o17));
    match c.email {
        Some(a) => {
            assert(s.subrange(o17, o18)[0] == s[o17]);
            assert(s[o17] == json_string_bytes(a)[0]);
            assert(s[o17] == 0x22);
            if parse_lit(s, o17, l_null()) is Some {
                assert(s.subrange(o17, o17 + 4)[0] == s[o17]);
                assert(false);
            }
            crate::jsontext::lemma_parse_json_string(s, o17, a);
            assert(parse_opt_string(s, o17) == Some((Some(a), o18)));
        },
        None => {
            assert(parse_lit(s, o17, l_null()) == Some(o18));
            assert(parse_opt_string(s, o17) == Some((None::<Seq<char>>, o18)));
        },
    }
    assert(s.subrange(o18, o19)[0] == s[o18]);
    assert(s[o18] == 0x7d);
}

/// Parsing the canonical payload of a well-formed claim set recovers
/// the claim set.
#[verifier::rlimit(100)]
pub proof fn lemma_payload_round_trip(c: ClaimsView)
    requires
        crate::claims::claims_wf(c),
    ensures
        parse_payload(payload_bytes(c)) == Some(c),
{
    let s = payload_bytes(c);
    lemma_payload_fields_a1(c);
    lemma_payload_fields_a2(c);
    lemma_payload_fields_b(c);
    assert(parse_payload(s) is Some);
    assert(parse_payload(s)->Some_0 =~= c);
}

} // verus!
