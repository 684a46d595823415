//! The authentication interceptor in front of a downstream handler chain: it
//! extracts the bearer credential from a request's headers, verifies it,
//! and either forwards the request with the authenticated claim set
//! attached or rejects it with one uniform unauthorized response,
//! whatever the internal reason.

#![verifier::loop_isolation(false)]

use vstd::prelude::*;
use vstd::string::StrSliceExecFns;
use vstd::utf8::encode_utf8;

use crate::claims::{Claims, ClaimsView};
use crate::codec::{verify_at, verify_spec, SigningContext};

verus! {

/// One request header.
pub struct Header {
    pub name: String,
    pub value: String,
}

/// Model of a header.
#[verifier::ext_equal]
pub struct HeaderView {
    pub name: Seq<char>,
    pub value: Seq<char>,
}

impl View for Header {
    type V = HeaderView;

    open spec fn view(&self) -> HeaderView {
        HeaderView { name: self.name@, value: self.value@ }
    }
}

impl DeepView for Header {
    type V = HeaderView;

    open spec fn deep_view(&self) -> HeaderView {
        self.view()
    }
}

/// An inbound request: its headers, in order.
pub struct Request {
    pub headers: Vec<Header>,
}

impl View for Request {
    type V = Seq<HeaderView>;

    open spec fn view(&self) -> Seq<HeaderView> {
        self.headers.deep_view()
    }
}

/// A response: a status code and a body.
pub struct Response {
    pub status: u16,
    pub body: String,
}

/// Model of a response.
#[verifier::ext_equal]
pub struct ResponseView {
    pub status: int,
    pub body: Seq<char>,
}

impl View for Response {
    type V = ResponseView;

    open spec fn view(&self) -> ResponseView {
        ResponseView { status: self.status as int, body: self.body@ }
    }
}

/// The value of the first header with the given name.
pub open spec fn first_header_value(hs: Seq<HeaderView>, name: Seq<char>) -> Option<Seq<char>>
    decreases hs.len(),
{
    if hs.len() == 0 {
        None
    } else if hs[0].name == name {
        Some(hs[0].value)
    } else {
        first_header_value(hs.skip(1), name)
    }
}

/// The candidate credential of a header value: what follows the exact
/// `Bearer ` prefix.
pub open spec fn bearer_token(v: Seq<char>) -> Option<Seq<char>> {
    if v.len() >= 7 && v.subrange(0, 7) == "Bearer "@ {
        Some(v.skip(7))
    } else {
        None
    }
}

/// The candidate credential of a request: the bearer token of its first
/// `Authorization` header.
pub open spec fn request_token(hs: Seq<HeaderView>) -> Option<Seq<char>> {
    match first_header_value(hs, "Authorization"@) {
        Some(v) => bearer_token(v),
        None => None,
    }
}

/// The interceptor's decision for a request under a context at an instant: the
/// authenticated claim set, or nothing, in which case the request is
/// rejected.  A missing header, a wrong scheme and every verification
/// failure are all rejections.
pub open spec fn intercept_spec(
    ctx: crate::codec::SigningContextView,
    hs: Seq<HeaderView>,
    now: int,
) -> Option<ClaimsView> {
    match request_token(hs) {
        Some(tok) => match verify_spec(ctx, encode_utf8(tok), now) {
            Ok(c) => Some(c),
            Err(_) => None,
        },
        None => None,
    }
}

/// The uniform body of every rejection.
pub open spec fn unauthorized_body() -> Seq<char> {
    "{\"message\":\"Unauthorized\"}"@
}

/// A downstream handler chain.  The two ghost functions let the
/// interceptor's contract speak about what the chain saw and what it answered: an
/// implementation accounts for each call in `observed` and answers as
/// `response_to` of its prior state says.
pub trait Handler {
    /// The claim sets of the calls this chain has received, in order.
    spec fn observed(&self) -> Seq<ClaimsView>;

    /// The response the chain gives from its current state.
    spec fn response_to(&self, id: ClaimsView) -> ResponseView;

    /// Handle one authenticated request.
    fn handle(&mut self, claims: &Claims, req: &Request) -> (r: Response)
        ensures
            final(self).observed() == old(self).observed().push(claims@),
            r@ == old(self).response_to(claims@),
    ;
}

/// Extract the candidate credential from a request, as `request_token`
/// describes: the first `Authorization` header must carry the exact
/// `Bearer ` prefix, and the rest is the candidate.
pub fn extract_bearer(req: &Request) -> (r: Option<String>)
    ensures
        match r {
            Some(s) => request_token(req@) == Some(s@),
            None => request_token(req@) is None,
        },
{
    let n = req.headers.len();
    let mut i: usize = 0;
    proof {
        assert(req@.skip(0) =~= req@);
    }
    while i < n
        invariant
            i <= n,
            n == req.headers@.len(),
            first_header_value(req@, "Authorization"@) == first_header_value(
                req@.skip(i as int),
                "Authorization"@,
            ),
        decreases n - i,
    {
        let h = &req.headers[i];
        proof {
            assert(req@.skip(i as int)[0] == req.headers@[i as int]@);
            assert(req@.skip(i as int).skip(1) == req@.skip(i + 1));
        }
        if crate::codec::str_eq(h.name.as_str(), "Authorization") {
            let v = h.value.as_str();
            let len = v.unicode_len();
            if len < 7 {
                proof {
                    assert(bearer_token(v@) is None);
                }
                return None;
            }
            let ok = v.get_char(0) == 'B' && v.get_char(1) == 'e' && v.get_char(2) == 'a'
                && v.get_char(3) == 'r' && v.get_char(4) == 'e' && v.get_char(5) == 'r'
                && v.get_char(6) == ' ';
            proof {
                reveal_strlit("Bearer ");
                if ok {
                    assert(v@.subrange(0, 7) =~= "Bearer "@);
                } else {
                    if v@.subrange(0, 7) == "Bearer "@ {
                        assert(v@.subrange(0, 7)[0] == v@[0]);
                        assert(v@.subrange(0, 7)[1] == v@[1]);
                        assert(v@.subrange(0, 7)[2] == v@[2]);
                        assert(v@.subrange(0, 7)[3] == v@[3]);
                        assert(v@.subrange(0, 7)[4] == v@[4]);
                        assert(v@.subrange(0, 7)[5] == v@[5]);
                        assert(v@.subrange(0, 7)[6] == v@[6]);
                        assert(false);
                    }
                }
            }
            if !ok {
                return None;
            }
            let tok = v.substring_char(7, len).to_owned();
            proof {
                assert(tok@ =~= v@.skip(7));
            }
            return Some(tok);
        }
        i = i + 1;
    }
    proof {
        assert(req@.skip(n as int).len() == 0);
    }
    None
}

/// The middleware factory: it holds the signing context and wraps any
/// downstream chain.
pub struct JwtMiddleware {
    pub ctx: SigningContext,
}

impl JwtMiddleware {
    /// An interceptor over the given signing context.
    pub fn new(ctx: SigningContext) -> (r: JwtMiddleware)
        ensures
            r.ctx@ == ctx@,
    {
        JwtMiddleware { ctx }
    }

    /// Put the interceptor in front of a downstream chain.
    pub fn wrap<S: Handler>(self, service: S) -> (r: JwtMiddlewareService<S>)
        ensures
            r.ctx@ == self.ctx@,
            r.service == service,
    {
        JwtMiddlewareService { ctx: self.ctx, service }
    }
}

/// The interceptor in front of one concrete downstream chain.
pub struct JwtMiddlewareService<S> {
    pub ctx: SigningContext,
    pub service: S,
}

impl<S: Handler> JwtMiddlewareService<S> {
    /// Intercept one request at the instant `now`.  When the decision
    /// authenticates a claim set, the downstream chain is invoked exactly
    /// once, observes that claim set, and its response is returned
    /// unchanged; otherwise the chain is never reached and the uniform
    /// unauthorized response is returned.
    pub fn call(&mut self, req: &Request, now: i64) -> (r: Response)
        ensures
            final(self).ctx == old(self).ctx,
            match intercept_spec(old(self).ctx@, req@, now as int) {
                Some(c) => final(self).service.observed() == old(self).service.observed().push(c)
                    && r@ == old(self).service.response_to(c),
                None => final(self).service == old(self).service && r@.status == 401 && r@.body
                    == unauthorized_body(),
            },
    {
        let token = match extract_bearer(req) {
            Some(t) => t,
            None => {
                return Response { status: 401, body: "{\"message\":\"Unauthorized\"}".to_owned() };
            },
        };
        match verify_at(&self.ctx, token.as_str(), now) {
            Ok(claims) => self.service.handle(&claims, req),
            Err(_) => Response { status: 401, body: "{\"message\":\"Unauthorized\"}".to_owned() },
        }
    }
}

/// A downstream chain that records the claim sets it is handed and
/// answers with a fixed response; what a protected route looks like to
/// the interceptor, and a direct way to observe its behaviour.
pub struct RecordingHandler {
    pub calls: Vec<Claims>,
    pub status: u16,
    pub body: String,
}

impl RecordingHandler {
    /// A chain that has seen nothing and answers with the given response.
    pub fn new(status: u16, body: String) -> (r: RecordingHandler)
        ensures
            r.observed() == Seq::<ClaimsView>::empty(),
            r.status == status,
            r.body == body,
    {
        let r = RecordingHandler { calls: Vec::new(), status, body };
        proof {
            assert(r.calls.deep_view() =~= Seq::<ClaimsView>::empty());
        }
        r
    }
}

impl Handler for RecordingHandler {
    open spec fn observed(&self) -> Seq<ClaimsView> {
        self.calls.deep_view()
    }

    open spec fn response_to(&self, id: ClaimsView) -> ResponseView {
        ResponseView { status: self.status as int, body: self.body@ }
    }

    fn handle(&mut self, claims: &Claims, req: &Request) -> (r: Response) {
        let copy = claims.duplicate();
        self.calls.push(copy);
        proof {
            assert(self.calls.deep_view() =~= old(self).calls.deep_view().push(claims@));
        }
        let r = Response { status: self.status, body: self.body.clone() };
        proof {
            assert(r@ =~= old(self).response_to(claims@));
        }
        r
    }
}

/// A request without an `Authorization` header is never authenticated:
/// together with `call`'s contract, it is rejected with the uniform
/// unauthorized response and the downstream chain is never reached.
pub proof fn lemma_missing_header_rejected(
    ctx: crate::codec::SigningContextView,
    hs: Seq<HeaderView>,
    now: int,
)
    requires
        first_header_value(hs, "Authorization"@) is None,
    ensures
        intercept_spec(ctx, hs, now) is None,
{
}

/// An `Authorization` header without the exact `Bearer ` prefix is never
/// authenticated, whatever its value: no credential is even extracted.
pub proof fn lemma_wrong_scheme_rejected(
    ctx: crate::codec::SigningContextView,
    hs: Seq<HeaderView>,
    now: int,
    v: Seq<char>,
)
    requires
        first_header_value(hs, "Authorization"@) == Some(v),
        bearer_token(v) is None,
    ensures
        intercept_spec(ctx, hs, now) is None,
{
}

/// A request whose bearer credential verifies is authenticated as
/// exactly the credential's claim set: together with `call`'s contract,
/// the downstream chain is invoked once and observes that claim set.
pub proof fn lemma_valid_bearer_forwarded(
    ctx: crate::codec::SigningContextView,
    hs: Seq<HeaderView>,
    now: int,
    tok: Seq<char>,
    c: ClaimsView,
)
    requires
        request_token(hs) == Some(tok),
        verify_spec(ctx, encode_utf8(tok), now) == Ok::<ClaimsView, crate::codec::VerifyError>(c),
    ensures
        intercept_spec(ctx, hs, now) == Some(c),
{
}

} // verus!
