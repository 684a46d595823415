//! The claim set carried inside a credential, and its mathematical model.

use vstd::prelude::*;

verus! {

/// The canonical claim set of a credential: who it represents, who
/// issued it, its validity window, its audience, a unique token id, the
/// subject's roles and an optional contact address.
#[derive(Debug, PartialEq, Eq)]
pub struct Claims {
    pub sub: String,
    pub iss: String,
    pub exp: i64,
    pub iat: i64,
    pub nbf: Option<i64>,
    pub aud: Option<String>,
    pub jti: String,
    pub role: Vec<String>,
    pub email: Option<String>,
}

/// Model of a claim set: character sequences and unbounded integers.
#[verifier::ext_equal]
pub struct ClaimsView {
    pub sub: Seq<char>,
    pub iss: Seq<char>,
    pub exp: int,
    pub iat: int,
    pub nbf: Option<int>,
    pub aud: Option<Seq<char>>,
    pub jti: Seq<char>,
    pub role: Seq<Seq<char>>,
    pub email: Option<Seq<char>>,
}

impl View for Claims {
    type V = ClaimsView;

    open spec fn view(&self) -> ClaimsView {
        ClaimsView {
            sub: self.sub@,
            iss: self.iss@,
            exp: self.exp as int,
            iat: self.iat as int,
            nbf: match self.nbf {
                Some(v) => Some(v as int),
                None => None,
            },
            aud: match self.aud {
                Some(s) => Some(s@),
                None => None,
            },
            jti: self.jti@,
            role: self.role.deep_view(),
            email: match self.email {
                Some(s) => Some(s@),
                None => None,
            },
        }
    }
}

/// A claim set that can live inside a credential: a non-empty subject
/// and timestamps that fit a signed 64-bit count of seconds.
pub open spec fn claims_wf(c: ClaimsView) -> bool {
    &&& c.sub.len() > 0
    &&& -0x8000_0000_0000_0000 <= c.exp <= 0x7fff_ffff_ffff_ffff
    &&& -0x8000_0000_0000_0000 <= c.iat <= 0x7fff_ffff_ffff_ffff
    &&& match c.nbf {
        Some(v) => -0x8000_0000_0000_0000 <= v <= 0x7fff_ffff_ffff_ffff,
        None => true,
    }
}

impl DeepView for Claims {
    type V = ClaimsView;

    open spec fn deep_view(&self) -> ClaimsView {
        self.view()
    }
}

impl Claims {
    /// A field-for-field copy.
    pub fn duplicate(&self) -> (r: Claims)
        ensures
            r@ == self@,
    {
        let mut roles: Vec<String> = Vec::new();
        let n = self.role.len();
        let mut i: usize = 0;
        while i < n
            invariant
                i <= n,
                n == self.role@.len(),
                roles@.len() == i,
                forall|j: int| 0 <= j < i ==> roles@[j]@ == self.role@[j]@,
            decreases n - i,
        {
            roles.push(self.role[i].clone());
            i = i + 1;
        }
        proof {
            assert forall|j: int| 0 <= j < n implies roles.deep_view()[j]
                == self.role.deep_view()[j] by {
                assert(roles.deep_view()[j] == roles@[j]@);
                assert(self.role.deep_view()[j] == self.role@[j]@);
            }
            assert(roles.deep_view() =~= self.role.deep_view());
        }
        let r = Claims {
            sub: self.sub.clone(),
            iss: self.iss.clone(),
            exp: self.exp,
            iat: self.iat,
            nbf: self.nbf,
            aud: match &self.aud {
                Some(a) => Some(a.clone()),
                None => None,
            },
            jti: self.jti.clone(),
            role: roles,
            email: match &self.email {
                Some(e) => Some(e.clone()),
                None => None,
            },
        };
        proof {
            assert(r@ =~= self@);
        }
        r
    }
}

} // verus!
