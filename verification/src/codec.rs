//! The credential codec: minting a signed credential string from a claim
//! set, and verifying a presented string back into a claim set against a
//! signing context.

#![verifier::loop_isolation(false)]

use vstd::prelude::*;
use vstd::string::StringSliceAdditionalSpecFns;
use vstd::utf8::{decode_utf8, encode_utf8, valid_utf8};

use crate::base64url;
use crate::base64url::{b64_decode, b64_encode, is_b64_byte};
use crate::claims::{Claims, ClaimsView};
use crate::hmac::{hmac_sha256, hs256_check, hs256_sign};
use crate::payload::{parse_payload, parse_payload_exec, payload_bytes, payload_vec};

verus! {

/// The process-wide signing state: the shared secret and the fixed
/// issuer, with an optional required audience.  Initialized once and
/// never mutated; every mint and every verification reads it.
pub struct SigningContext {
    pub secret: Vec<u8>,
    pub issuer: String,
    pub audience: Option<String>,
}

/// Model of a signing context.
#[verifier::ext_equal]
pub struct SigningContextView {
    pub secret: Seq<u8>,
    pub issuer: Seq<char>,
    pub audience: Option<Seq<char>>,
}

impl View for SigningContext {
    type V = SigningContextView;

    open spec fn view(&self) -> SigningContextView {
        SigningContextView {
            secret: self.secret@,
            issuer: self.issuer@,
            audience: match self.audience {
                Some(a) => Some(a@),
                None => None,
            },
        }
    }
}

impl SigningContext {
    /// A context over the given secret, issuer and optional audience.
    pub fn new(secret: Vec<u8>, issuer: String, audience: Option<String>) -> (r: SigningContext)
        ensures
            r@.secret == secret@,
            r@.issuer == issuer@,
            r@.audience == (match audience {
                Some(a) => Some(a@),
                None => None::<Seq<char>>,
            }),
    {
        SigningContext { secret, issuer, audience }
    }
}

/// The fixed credential header text: the object naming the signing
/// algorithm and the token type.
pub open spec fn header_bytes() -> Seq<u8> {
    seq![0x7bu8, 0x22u8, 0x61u8, 0x6cu8, 0x67u8, 0x22u8, 0x3au8, 0x22u8, 0x48u8, 0x53u8, 0x32u8,
        0x35u8, 0x36u8, 0x22u8, 0x2cu8, 0x22u8, 0x74u8, 0x79u8, 0x70u8, 0x22u8, 0x3au8, 0x22u8,
        0x4au8, 0x57u8, 0x54u8, 0x22u8, 0x7du8]
}

/// The first credential segment: the encoded header.
pub open spec fn header_b64() -> Seq<u8> {
    b64_encode(header_bytes())
}

/// What the signature covers: the encoded header and the encoded
/// payload, joined by a dot.
pub open spec fn signing_input(c: ClaimsView) -> Seq<u8> {
    header_b64() + seq![0x2eu8] + b64_encode(payload_bytes(c))
}

/// The whole credential for a claim set under a secret: signing input,
/// a dot, and the encoded signature.
pub open spec fn token_bytes(secret: Seq<u8>, c: ClaimsView) -> Seq<u8> {
    signing_input(c) + seq![0x2eu8] + b64_encode(hmac_sha256(secret, signing_input(c)))
}

/// Every byte below 0x80 makes a valid one-byte UTF-8 scalar.
pub proof fn lemma_ascii_valid_utf8(bytes: Seq<u8>)
    requires
        forall|i: int| 0 <= i < bytes.len() ==> #[trigger] bytes[i] < 0x80,
    ensures
        valid_utf8(bytes),
{
    assert(bytes.subrange(0, 0) =~= Seq::<u8>::empty());
    assert(vstd::utf8::partial_valid_utf8(bytes, 0));
    assert forall|i: int|
        0 <= 0 <= i < bytes.len() <= bytes.len() implies #[trigger] vstd::utf8::is_leading_byte_width_1(
        bytes[i],
    ) by {
        assert(bytes[i] < 0x80);
    }
    vstd::utf8::partial_valid_utf8_extend_ascii_block(bytes, 0, bytes.len() as int);
    assert(bytes.subrange(0, bytes.len() as int) =~= bytes);
}

/// Alphabet bytes are ASCII.
pub proof fn lemma_b64_byte_ascii(b: u8)
    requires
        is_b64_byte(b),
    ensures
        b < 0x80,
        b != 0x2e,
{
}

/// Build the fixed header segment.
fn header_b64_vec() -> (r: Vec<u8>)
    ensures
        r@ == header_b64(),
{
    let mut h: Vec<u8> = Vec::new();
    h.push(0x7b);
    h.push(0x22);
    h.push(0x61);
    h.push(0x6c);
    h.push(0x67);
    h.push(0x22);
    h.push(0x3a);
    h.push(0x22);
    h.push(0x48);
    h.push(0x53);
    h.push(0x32);
    h.push(0x35);
    h.push(0x36);
    h.push(0x22);
    h.push(0x2c);
    h.push(0x22);
    h.push(0x74);
    h.push(0x79);
    h.push(0x70);
    h.push(0x22);
    h.push(0x3a);
    h.push(0x22);
    h.push(0x4a);
    h.push(0x57);
    h.push(0x54);
    h.push(0x22);
    h.push(0x7d);
    proof {
        assert(h@ =~= header_bytes());
    }
    base64url::encode(h.as_slice())
}

/// Byte-slice equality.
fn bytes_eq(a: &[u8], b: &[u8]) -> (r: bool)
    ensures
        r == (a@ == b@),
{
    let n = a.len();
    if n != b.len() {
        proof {
            assert(a@ != b@);
        }
        return false;
    }
    let mut i: usize = 0;
    while i < n
        invariant
            i <= n,
            n == a@.len() == b@.len(),
            forall|j: int| 0 <= j < i ==> a@[j] == b@[j],
        decreases n - i,
    {
        if a[i] != b[i] {
            return false;
        }
        i = i + 1;
    }
    proof {
        assert(a@ =~= b@);
    }
    true
}

/// String equality, decided on the UTF-8 bytes.
pub fn str_eq(a: &str, b: &str) -> (r: bool)
    ensures
        r == (a@ == b@),
{
    let r = bytes_eq(a.as_bytes(), b.as_bytes());
    proof {
        broadcast use vstd::utf8::encode_utf8_decode_utf8, vstd::utf8::encode_utf8_valid_utf8;

        if a.spec_bytes() == b.spec_bytes() {
            assert(decode_utf8(encode_utf8(a@)) == decode_utf8(encode_utf8(b@)));
            assert(a@ == b@);
        }
    }
    r
}

/// How minting a credential can fail: the signing secret is absent, or
/// the claim set is structurally invalid (an empty subject).  Both are
/// configuration or programming mistakes, not request-time conditions.
#[derive(Debug, Clone, Copy, PartialEq, Eq, Structural)]
pub enum MintError {
    MissingSecret,
    InvalidClaims,
}

/// Encode and sign a claim set under the context's secret.  Succeeds
/// exactly when the secret is present and the subject is non-empty, and
/// then returns the credential text for the claim set.
pub fn mint(ctx: &SigningContext, claims: &Claims) -> (r: Result<String, MintError>)
    ensures
        r == Err::<String, MintError>(MintError::MissingSecret) <==> ctx@.secret.len() == 0,
        r == Err::<String, MintError>(MintError::InvalidClaims) <==> ctx@.secret.len() > 0
            && claims@.sub.len() == 0,
        r matches Ok(t) ==> encode_utf8(t@) == token_bytes(ctx@.secret, claims@) && t@
            == decode_utf8(token_bytes(ctx@.secret, claims@)),
        r is Ok <==> ctx@.secret.len() > 0 && claims@.sub.len() > 0,
{
    if ctx.secret.len() == 0 {
        return Err(MintError::MissingSecret);
    }
    if claims.sub.as_str().is_empty() {
        return Err(MintError::InvalidClaims);
    }
    let payload = payload_vec(claims);
    let p64 = base64url::encode(payload.as_slice());
    let mut msg = header_b64_vec();
    msg.push(0x2e);
    let mut p64m = p64;
    msg.append(&mut p64m);
    proof {
        assert(msg@ =~= signing_input(claims@));
    }
    let mut sig = hs256_sign(ctx.secret.as_slice(), msg.as_slice());
    let mut token = msg;
    token.push(0x2e);
    token.append(&mut sig);
    proof {
        assert(token@ =~= token_bytes(ctx@.secret, claims@));
        let t = token@;
        crate::base64url::lemma_b64_encode_alphabet(header_bytes());
        crate::base64url::lemma_b64_encode_alphabet(payload_bytes(claims@));
        crate::base64url::lemma_b64_encode_alphabet(
            hmac_sha256(ctx@.secret, signing_input(claims@)),
        );
        let h = header_b64();
        let p = b64_encode(payload_bytes(claims@));
        let g = b64_encode(hmac_sha256(ctx@.secret, signing_input(claims@)));
        assert forall|i: int| 0 <= i < t.len() implies #[trigger] t[i] < 0x80 by {
            if i < h.len() {
                assert(t[i] == h[i]);
                lemma_b64_byte_ascii(h[i]);
            } else if i == h.len() {
                assert(t[i] == 0x2e);
            } else if i < h.len() + 1 + p.len() {
                assert(t[i] == p[i - h.len() - 1]);
                lemma_b64_byte_ascii(p[i - h.len() - 1]);
            } else if i == h.len() + 1 + p.len() {
                assert(t[i] == 0x2e);
            } else {
                assert(t[i] == g[i - (h.len() + 1 + p.len() + 1)]);
                lemma_b64_byte_ascii(g[i - (h.len() + 1 + p.len() + 1)]);
            }
        }
        lemma_ascii_valid_utf8(t);
        broadcast use vstd::utf8::decode_utf8_encode_utf8;

    }
    match crate::jsontext::bytes_to_string(token) {
        Some(t) => Ok(t),
        None => {
            proof {
                assert(false);
            }
            Err(MintError::InvalidClaims)
        },
    }
}

/// Why a presented credential is rejected.  The distinctions are for
/// logging only; the interceptor collapses them all into one uniform
/// unauthorized response.
#[derive(Debug, Clone, Copy, PartialEq, Eq, Structural)]
pub enum VerifyError {
    Malformed,
    BadSignature,
    IssuerMismatch,
    AudienceMismatch,
    NotYetValid,
    Expired,
}

/// Position of the first dot at or after `p`, or the length if none.
pub open spec fn find_dot(t: Seq<u8>, p: int) -> int
    decreases t.len() - p,
{
    if p < 0 || p >= t.len() {
        t.len() as int
    } else if t[p] == 0x2e {
        p
    } else {
        find_dot(t, p + 1)
    }
}

/// What verification returns for a presented credential under a context
/// at an instant: the claim set exactly when the text has the canonical
/// three-segment shape, the signature covers the first two segments,
/// and the issuer, audience and validity window all pass; otherwise the
/// first failing check's rejection.
pub open spec fn verify_spec(ctx: SigningContextView, t: Seq<u8>, now: int) -> Result<
    ClaimsView,
    VerifyError,
> {
    let d1 = find_dot(t, 0);
    let d2 = find_dot(t, d1 + 1);
    let d3 = find_dot(t, d2 + 1);
    if !(d1 < t.len() && d2 < t.len() && d3 == t.len()) {
        Err(VerifyError::Malformed)
    } else if t.subrange(0, d1) != header_b64() {
        Err(VerifyError::Malformed)
    } else if b64_decode(t.subrange(d1 + 1, d2)) is None {
        Err(VerifyError::Malformed)
    } else if parse_payload(b64_decode(t.subrange(d1 + 1, d2))->Some_0) is None {
        Err(VerifyError::Malformed)
    } else {
        let c = parse_payload(b64_decode(t.subrange(d1 + 1, d2))->Some_0)->Some_0;
        if c.sub.len() == 0 {
            Err(VerifyError::Malformed)
        } else if t.subrange(d2 + 1, t.len() as int) != b64_encode(
            hmac_sha256(ctx.secret, t.subrange(0, d2)),
        ) {
            Err(VerifyError::BadSignature)
        } else if c.iss != ctx.issuer {
            Err(VerifyError::IssuerMismatch)
        } else if ctx.audience is Some && c.aud != ctx.audience {
            Err(VerifyError::AudienceMismatch)
        } else if c.nbf matches Some(nbf) && now < nbf {
            Err(VerifyError::NotYetValid)
        } else if now >= c.exp {
            Err(VerifyError::Expired)
        } else {
            Ok(c)
        }
    }
}

/// Find the first dot at or after `p`.
fn find_dot_exec(t: &[u8], p: usize) -> (q: usize)
    requires
        p <= t@.len(),
    ensures
        q as int == find_dot(t@, p as int),
        p <= q <= t@.len(),
{
    let n = t.len();
    let mut cur = p;
    while cur < n && t[cur] != 0x2e
        invariant
            p <= cur <= n,
            n == t@.len(),
            find_dot(t@, p as int) == find_dot(t@, cur as int),
        decreases n - cur,
    {
        cur = cur + 1;
    }
    cur
}

/// Copy a range of a slice.
fn sub_vec(s: &[u8], from: usize, to: usize) -> (r: Vec<u8>)
    requires
        from <= to <= s@.len(),
    ensures
        r@ == s@.subrange(from as int, to as int),
{
    let mut r: Vec<u8> = Vec::new();
    let mut i = from;
    while i < to
        invariant
            from <= i <= to <= s@.len(),
            r@ == s@.subrange(from as int, i as int),
        decreases to - i,
    {
        r.push(s[i]);
        proof {
            assert(r@ =~= s@.subrange(from as int, i + 1));
        }
        i = i + 1;
    }
    proof {
        assert(r@ =~= s@.subrange(from as int, to as int));
    }
    r
}

/// Verify a presented credential against the context at the instant
/// `now`, exactly as `verify_spec` describes: on success the
/// reconstructed claim set, otherwise the reason, which callers must not
/// echo to the outside.
pub fn verify_at(ctx: &SigningContext, token: &str, now: i64) -> (r: Result<Claims, VerifyError>)
    ensures
        match r {
            Ok(c) => verify_spec(ctx@, encode_utf8(token@), now as int) == Ok::<
                ClaimsView,
                VerifyError,
            >(c@),
            Err(e) => verify_spec(ctx@, encode_utf8(token@), now as int) == Err::<
                ClaimsView,
                VerifyError,
            >(e),
        },
{
    let bytes = token.as_bytes_vec();
    let ghost t = bytes@;
    let n = bytes.len();
    let d1 = find_dot_exec(bytes.as_slice(), 0);
    if d1 >= n {
        return Err(VerifyError::Malformed);
    }
    let d2 = find_dot_exec(bytes.as_slice(), d1 + 1);
    if d2 >= n {
        return Err(VerifyError::Malformed);
    }
    let d3 = find_dot_exec(bytes.as_slice(), d2 + 1);
    if d3 < n {
        return Err(VerifyError::Malformed);
    }
    let h = sub_vec(bytes.as_slice(), 0, d1);
    let hb = header_b64_vec();
    if !bytes_eq(h.as_slice(), hb.as_slice()) {
        return Err(VerifyError::Malformed);
    }
    let p64 = sub_vec(bytes.as_slice(), d1 + 1, d2);
    let payload = match base64url::decode(p64.as_slice()) {
        Some(v) => v,
        None => {
            return Err(VerifyError::Malformed);
        },
    };
    let claims = match parse_payload_exec(payload.as_slice()) {
        Some(c) => c,
        None => {
            return Err(VerifyError::Malformed);
        },
    };
    if claims.sub.as_str().is_empty() {
        return Err(VerifyError::Malformed);
    }
    let msg = sub_vec(bytes.as_slice(), 0, d2);
    let sig = sub_vec(bytes.as_slice(), d2 + 1, n);
    if !hs256_check(ctx.secret.as_slice(), msg.as_slice(), sig.as_slice()) {
        return Err(VerifyError::BadSignature);
    }
    if !str_eq(claims.iss.as_str(), ctx.issuer.as_str()) {
        return Err(VerifyError::IssuerMismatch);
    }
    match &ctx.audience {
        Some(want) => {
            match &claims.aud {
                Some(got) => {
                    if !str_eq(got.as_str(), want.as_str()) {
                        return Err(VerifyError::AudienceMismatch);
                    }
                },
                None => {
                    return Err(VerifyError::AudienceMismatch);
                },
            }
        },
        None => {},
    }
    match claims.nbf {
        Some(nbf) => {
            if now < nbf {
                return Err(VerifyError::NotYetValid);
            }
        },
        None => {},
    }
    if now >= claims.exp {
        return Err(VerifyError::Expired);
    }
    Ok(claims)
}

/// No byte of `s` is a dot.
pub open spec fn no_dots(s: Seq<u8>) -> bool {
    forall|i: int| 0 <= i < s.len() ==> s[i] != 0x2e
}

/// What `find_dot` returns: the first dot at or after `p`.
proof fn lemma_find_dot_correct(t: Seq<u8>, p: int)
    requires
        0 <= p <= t.len(),
    ensures
        p <= find_dot(t, p) <= t.len(),
        forall|i: int| p <= i < find_dot(t, p) ==> t[i] != 0x2e,
        find_dot(t, p) < t.len() ==> t[find_dot(t, p)] == 0x2e,
    decreases t.len() - p,
{
    if p < t.len() && t[p] != 0x2e {
        lemma_find_dot_correct(t, p + 1);
    }
}

/// `find_dot` lands on a dot that only non-dots precede.
proof fn lemma_find_dot_skips(t: Seq<u8>, p: int, q: int)
    requires
        0 <= p <= q < t.len(),
        t[q] == 0x2e,
        forall|i: int| p <= i < q ==> t[i] != 0x2e,
    ensures
        find_dot(t, p) == q,
    decreases q - p,
{
    if p < q {
        lemma_find_dot_skips(t, p + 1, q);
    }
}

/// Without a dot ahead, `find_dot` runs to the end.
proof fn lemma_find_dot_none(t: Seq<u8>, p: int)
    requires
        0 <= p <= t.len(),
        forall|i: int| p <= i < t.len() ==> t[i] != 0x2e,
    ensures
        find_dot(t, p) == t.len(),
    decreases t.len() - p,
{
    if p < t.len() {
        lemma_find_dot_none(t, p + 1);
    }
}

/// An encoded segment contains no dot.
proof fn lemma_b64_encode_no_dots(s: Seq<u8>)
    ensures
        no_dots(b64_encode(s)),
        forall|i: int| 0 <= i < b64_encode(s).len() ==> #[trigger] b64_encode(s)[i] < 0x80,
{
    base64url::lemma_b64_encode_alphabet(s);
    assert forall|i: int| 0 <= i < b64_encode(s).len() implies b64_encode(s)[i] != 0x2e
        && #[trigger] b64_encode(s)[i] < 0x80 by {
        assert(is_b64_byte(b64_encode(s)[i]));
        lemma_b64_byte_ascii(b64_encode(s)[i]);
    }
}

/// Verifying a credential minted under the context's own secret checks
/// its structure and signature successfully, so the outcome is decided
/// by the issuer, audience and validity-window checks alone, on the very
/// claim set that was minted.
#[verifier::rlimit(100)]
pub proof fn lemma_verify_minted(ctx: SigningContextView, c: ClaimsView, now: int)
    requires
        crate::claims::claims_wf(c),
    ensures
        verify_spec(ctx, token_bytes(ctx.secret, c), now) == (if c.iss != ctx.issuer {
            Err::<ClaimsView, VerifyError>(VerifyError::IssuerMismatch)
        } else if ctx.audience is Some && c.aud != ctx.audience {
            Err::<ClaimsView, VerifyError>(VerifyError::AudienceMismatch)
        } else if c.nbf matches Some(nbf) && now < nbf {
            Err::<ClaimsView, VerifyError>(VerifyError::NotYetValid)
        } else if now >= c.exp {
            Err::<ClaimsView, VerifyError>(VerifyError::Expired)
        } else {
            Ok::<ClaimsView, VerifyError>(c)
        }),
{
    let t = token_bytes(ctx.secret, c);
    let h = header_b64();
    let p = b64_encode(payload_bytes(c));
    let g = b64_encode(hmac_sha256(ctx.secret, signing_input(c)));
    lemma_b64_encode_no_dots(header_bytes());
    lemma_b64_encode_no_dots(payload_bytes(c));
    lemma_b64_encode_no_dots(hmac_sha256(ctx.secret, signing_input(c)));
    assert(header_bytes().len() == 27);
    assert(b64_encode(header_bytes()) == crate::base64url::enc3(
        header_bytes()[0],
        header_bytes()[1],
        header_bytes()[2],
    ) + b64_encode(header_bytes().skip(3)));
    assert(h.len() >= 4);
    let d1 = h.len() as int;
    let d2 = d1 + 1 + p.len();
    assert(t.len() == d2 + 1 + g.len());
    assert forall|i: int| 0 <= i < d1 implies t[i] == h[i] by {}
    assert(t[d1] == 0x2e);
    assert forall|i: int| 0 <= i < p.len() implies t[d1 + 1 + i] == p[i] by {}
    assert(t[d2] == 0x2e);
    assert forall|i: int| 0 <= i < g.len() implies t[d2 + 1 + i] == g[i] by {}
    lemma_find_dot_skips(t, 0, d1);
    lemma_find_dot_skips(t, d1 + 1, d2);
    lemma_find_dot_none(t, d2 + 1);
    assert(find_dot(t, 0) == d1);
    assert(find_dot(t, d1 + 1) == d2);
    assert(find_dot(t, d2 + 1) == t.len());
    assert(t.subrange(0, d1) =~= h);
    assert(t.subrange(d1 + 1, d2) =~= p);
    assert(t.subrange(d2 + 1, t.len() as int) =~= g);
    assert(t.subrange(0, d2) =~= signing_input(c));
    crate::base64url::lemma_b64_round_trip(payload_bytes(c));
    assert(b64_decode(p) == Some(payload_bytes(c)));
    crate::payload::lemma_payload_round_trip(c);
    assert(parse_payload(payload_bytes(c)) == Some(c));
}

/// Round trip: a credential minted for the configured issuer and
/// audience, already valid and not yet expired at the instant of
/// verification, verifies to a claim set equal to the one minted, on
/// every field.
pub proof fn lemma_mint_verify_round_trip(ctx: SigningContextView, c: ClaimsView, now: int)
    requires
        crate::claims::claims_wf(c),
        c.iss == ctx.issuer,
        ctx.audience is Some ==> c.aud == ctx.audience,
        c.nbf matches Some(nbf) ==> nbf <= now,
        now < c.exp,
    ensures
        verify_spec(ctx, token_bytes(ctx.secret, c), now) == Ok::<ClaimsView, VerifyError>(c),
{
    lemma_verify_minted(ctx, c, now);
}

/// A credential whose expiry is not after the verification instant is
/// rejected as expired, however fresh its mint: in particular one minted
/// with a zero or negative lifetime, immediately presented.
pub proof fn lemma_expired_rejected(ctx: SigningContextView, c: ClaimsView, now: int)
    requires
        crate::claims::claims_wf(c),
        c.iss == ctx.issuer,
        ctx.audience is Some ==> c.aud == ctx.audience,
        c.nbf matches Some(nbf) ==> nbf <= now,
        c.exp <= now,
    ensures
        verify_spec(ctx, token_bytes(ctx.secret, c), now) == Err::<ClaimsView, VerifyError>(
            VerifyError::Expired,
        ),
{
    lemma_verify_minted(ctx, c, now);
}

/// A credential carrying a foreign issuer is rejected as an issuer
/// mismatch even when its signature is valid for its own payload: the
/// signature covers the issuer field, so this holds of every correctly
/// signed payload with the wrong issuer.
pub proof fn lemma_foreign_issuer_rejected(ctx: SigningContextView, c: ClaimsView, now: int)
    requires
        crate::claims::claims_wf(c),
        c.iss != ctx.issuer,
    ensures
        verify_spec(ctx, token_bytes(ctx.secret, c), now) == Err::<ClaimsView, VerifyError>(
            VerifyError::IssuerMismatch,
        ),
{
    lemma_verify_minted(ctx, c, now);
}

/// Changing the signature segment of a credential that verifies makes
/// verification reject it: as a bad signature if the new segment is
/// dot-free, and as malformed if it contains a dot.  In particular every
/// change of a single byte of that segment is rejected.
#[verifier::rlimit(100)]
pub proof fn lemma_tampered_signature_rejected(
    ctx: SigningContextView,
    t: Seq<u8>,
    sig2: Seq<u8>,
    now: int,
)
    requires
        verify_spec(ctx, t, now) is Ok,
        sig2 != t.subrange(find_dot(t, find_dot(t, 0) + 1) + 1, t.len() as int),
    ensures
        verify_spec(ctx, t.subrange(0, find_dot(t, find_dot(t, 0) + 1) + 1) + sig2, now) == Err::<
            ClaimsView,
            VerifyError,
        >(if no_dots(sig2) {
            VerifyError::BadSignature
        } else {
            VerifyError::Malformed
        }),
{
    let d1 = find_dot(t, 0);
    let d2 = find_dot(t, d1 + 1);
    let t2 = t.subrange(0, d2 + 1) + sig2;
    lemma_find_dot_correct(t, 0);
    lemma_find_dot_correct(t, d1 + 1);
    assert(d1 < t.len() && d2 < t.len());
    assert(t[d1] == 0x2e && t[d2] == 0x2e);
    assert forall|i: int| 0 <= i <= d2 implies t2[i] == t[i] by {}
    lemma_find_dot_skips(t2, 0, d1);
    lemma_find_dot_skips(t2, d1 + 1, d2);
    assert(find_dot(t2, 0) == d1);
    assert(find_dot(t2, d1 + 1) == d2);
    if no_dots(sig2) {
        assert forall|i: int| d2 + 1 <= i < t2.len() implies t2[i] != 0x2e by {
            assert(t2[i] == sig2[i - (d2 + 1)]);
        }
        lemma_find_dot_none(t2, d2 + 1);
        assert(find_dot(t2, d2 + 1) == t2.len());
        assert(t2.subrange(0, d1) =~= t.subrange(0, d1));
        assert(t2.subrange(d1 + 1, d2) =~= t.subrange(d1 + 1, d2));
        assert(t2.subrange(0, d2) =~= t.subrange(0, d2));
        assert(t2.subrange(d2 + 1, t2.len() as int) =~= sig2);
        assert(t.subrange(d2 + 1, t.len() as int) == b64_encode(
            hmac_sha256(ctx.secret, t.subrange(0, d2)),
        ));
        assert(verify_spec(ctx, t2, now) == Err::<ClaimsView, VerifyError>(
            VerifyError::BadSignature,
        ));
    } else {
        let j = choose|j: int| 0 <= j < sig2.len() && sig2[j] == 0x2e;
        assert(t2[d2 + 1 + j] == 0x2e);
        lemma_find_dot_correct(t2, d2 + 1);
        assert(find_dot(t2, d2 + 1) < t2.len()) by {
            if find_dot(t2, d2 + 1) == t2.len() {
                assert(t2[d2 + 1 + j] != 0x2e);
            }
        }
        assert(verify_spec(ctx, t2, now) == Err::<ClaimsView, VerifyError>(VerifyError::Malformed));
    }
}

/// Relies on `chrono::Utc::now().timestamp()`: the current wall-clock
/// instant as whole seconds since the epoch.  Nothing is assumed of the
/// value; callers state what holds at every instant.
#[verifier::external_body]
pub fn current_timestamp() -> i64 {
    chrono::Utc::now().timestamp()
}

/// Relies on `uuid::Uuid::new_v4` and its hyphenated text form: a fresh
/// random token id of 36 characters.  Nothing more is assumed: the value
/// depends on randomness.
#[verifier::external_body]
pub fn fresh_token_id() -> (r: String)
    ensures
        r@.len() == 36,
{
    uuid::Uuid::new_v4().to_string()
}

/// The fixed issuer the issuing flow writes into every credential.
pub open spec fn default_issuer() -> Seq<char> {
    "comu"@
}

/// The fixed audience the issuing flow writes into every credential.
pub open spec fn default_audience() -> Seq<char> {
    "doggy"@
}

/// The signing context the convenience functions use.
pub open spec fn standard_context_spec(secret: Seq<u8>) -> SigningContextView {
    SigningContextView { secret, issuer: default_issuer(), audience: Some(default_audience()) }
}

/// A context over the given secret with the fixed issuer and audience.
pub fn standard_context(secret_key: &str) -> (r: SigningContext)
    ensures
        r@ == standard_context_spec(secret_key.spec_bytes()),
{
    let r = SigningContext {
        secret: secret_key.as_bytes_vec(),
        issuer: "comu".to_owned(),
        audience: Some("doggy".to_owned()),
    };
    proof {
        assert(r@ =~= standard_context_spec(secret_key.spec_bytes()));
    }
    r
}

/// The claim set the issuing flow mints: the subject with its roles and
/// optional address, issued and valid from `now`, expiring `ttl` seconds
/// later, under the fixed issuer and audience and the given token id.
pub open spec fn standard_claims(
    sub: Seq<char>,
    roles: Seq<Seq<char>>,
    email: Option<Seq<char>>,
    now: int,
    ttl: int,
    jti: Seq<char>,
) -> ClaimsView {
    ClaimsView {
        sub,
        iss: default_issuer(),
        exp: now + ttl,
        iat: now,
        nbf: Some(now),
        aud: Some(default_audience()),
        jti,
        role: roles,
        email,
    }
}

/// Assemble the standard claim set.
pub fn make_claims(
    user_id: &str,
    roles: Vec<String>,
    email: Option<String>,
    now: i64,
    ttl: i64,
    jti: String,
) -> (r: Claims)
    requires
        -0x8000_0000_0000_0000 <= now + ttl <= 0x7fff_ffff_ffff_ffff,
    ensures
        r@ == standard_claims(
            user_id@,
            roles.deep_view(),
            email.deep_view(),
            now as int,
            ttl as int,
            jti@,
        ),
{
    let r = Claims {
        sub: user_id.to_owned(),
        iss: "comu".to_owned(),
        exp: now + ttl,
        iat: now,
        nbf: Some(now),
        aud: Some("doggy".to_owned()),
        jti,
        role: roles,
        email,
    };
    proof {
        assert(r@ =~= standard_claims(
            user_id@,
            r.role.deep_view(),
            r.email.deep_view(),
            now as int,
            ttl as int,
            r.jti@,
        ));
    }
    r
}

/// Mint a credential for a subject: issued at the current instant with
/// the standard issuer and audience, expiring `expiration` seconds
/// later, under a fresh token id.  The instant and the id come from the
/// clock and from randomness, so the credential is pinned only up to
/// them; `mint` itself carries the exact contract.
pub fn generate_jwt(
    secret_key: &str,
    user_id: &str,
    expiration: i64,
    roles: Vec<String>,
    email: Option<String>,
) -> (r: Result<String, MintError>)
    ensures
        r == Err::<String, MintError>(MintError::MissingSecret) <==> secret_key.spec_bytes().len()
            == 0,
        secret_key.spec_bytes().len() > 0 && user_id@.len() == 0 ==> r == Err::<String, MintError>(
            MintError::InvalidClaims,
        ),
        r is Ok ==> secret_key.spec_bytes().len() > 0 && user_id@.len() > 0,
        secret_key.spec_bytes().len() > 0 && user_id@.len() > 0 && expiration == 0 ==> r is Ok,
        (match r {
            Ok(t) => exists|now: int, jti: Seq<char>|
                encode_utf8(t@) == #[trigger] token_bytes(
                    secret_key.spec_bytes(),
                    standard_claims(
                        user_id@,
                        roles.deep_view(),
                        email.deep_view(),
                        now,
                        expiration as int,
                        jti,
                    ),
                ),
            Err(_) => true,
        }),
{
    let ctx = standard_context(secret_key);
    if ctx.secret.len() == 0 {
        return Err(MintError::MissingSecret);
    }
    let now = current_timestamp();
    let jti = fresh_token_id();
    let max: i64 = 0x7fff_ffff_ffff_ffff;
    let min: i64 = -0x7fff_ffff_ffff_ffff - 1;
    let fits = if expiration >= 0 {
        now <= max - expiration
    } else {
        now >= min - expiration
    };
    if !fits {
        return Err(MintError::InvalidClaims);
    }
    let ghost gnow = now as int;
    let ghost gjti = jti@;
    let ghost groles = roles.deep_view();
    let ghost gemail = email.deep_view();
    let claims = make_claims(user_id, roles, email, now, expiration, jti);
    let r = mint(&ctx, &claims);
    proof {
        if r is Ok {
            let t = r->Ok_0;
            assert(encode_utf8(t@) == token_bytes(
                secret_key.spec_bytes(),
                standard_claims(user_id@, groles, gemail, gnow, expiration as int, gjti),
            ));
        }
    }
    r
}

/// Verify a presented credential against the standard context at the
/// current instant.  The instant comes from the clock, so the outcome is
/// pinned only up to it; `verify_at` carries the exact contract.
pub fn validate_jwt(secret_key: &str, token: &str) -> (r: Result<Claims, VerifyError>)
    ensures
        match r {
            Ok(c) => exists|now: int|
                #[trigger] verify_spec(
                    standard_context_spec(secret_key.spec_bytes()),
                    encode_utf8(token@),
                    now,
                ) == Ok::<ClaimsView, VerifyError>(c@),
            Err(e) => exists|now: int|
                #[trigger] verify_spec(
                    standard_context_spec(secret_key.spec_bytes()),
                    encode_utf8(token@),
                    now,
                ) == Err::<ClaimsView, VerifyError>(e),
        },
{
    let ctx = standard_context(secret_key);
    let now = current_timestamp();
    verify_at(&ctx, token, now)
}

} // verus!
