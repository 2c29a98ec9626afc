//! Request guards: extraction and validation of the bearer credential, and
//! the permission check.
use vstd::prelude::*;
use vstd::string::StrSliceExecFns;
use crate::codec::{claims_bytes, claims_wf};
use crate::domain::{AuthView, UserAuth};
use crate::errors::ApiError;
use crate::token::{b64_key_ok, contains_str, jwt_of, TokenServiceImpl};

verus! {

/// Whether the header value carries the expected bearer scheme.
pub open spec fn has_bearer_prefix(h: Seq<char>) -> bool {
    h.len() >= 7 && h.subrange(0, 7) == "Bearer "@
}

/// The token part of a bearer header.
pub open spec fn bearer_token(h: Seq<char>) -> Seq<char> {
    h.subrange(7, h.len() as int)
}

pub struct AuthenticationFilterImpl {
    token_service: TokenServiceImpl,
}

impl AuthenticationFilterImpl {
    pub closed spec fn wf(&self) -> bool {
        self.token_service.wf()
    }

    pub closed spec fn jwt_secret(&self) -> Seq<char> {
        self.token_service.spec_secret()
    }

    pub fn new(token_service: TokenServiceImpl) -> (r: AuthenticationFilterImpl)
        requires
            token_service.wf(),
        ensures
            r.wf(),
            r.jwt_secret() == token_service.spec_secret(),
    {
        AuthenticationFilterImpl { token_service }
    }

    /// Validates the `Authorization` header at the instant `now` and hands
    /// back the parsed claims. A missing scheme, a bad signature and an
    /// expired token all fail alike.
    pub fn auth_user(&self, authorization: &str, now: i64) -> (r: Result<UserAuth, ApiError>)
        requires
            self.wf(),
        ensures
            !has_bearer_prefix(authorization@) ==> r is Err && r.unwrap_err()
                is Authentication,
            r is Ok ==> has_bearer_prefix(authorization@) && claims_wf(r.unwrap()@)
                && r.unwrap()@.iat <= now as int && (now as int) < r.unwrap()@.exp,
            forall|c: AuthView|
                has_bearer_prefix(authorization@) && claims_wf(c) && bearer_token(
                    authorization@) == jwt_of(claims_bytes(c), self.jwt_secret())
                    && b64_key_ok(self.jwt_secret()) && c.iat <= now as int && (now as int)
                    < c.exp ==> r is Ok && r.unwrap()@ == c,
            forall|c: AuthView|
                has_bearer_prefix(authorization@) && claims_wf(c) && bearer_token(
                    authorization@) == jwt_of(claims_bytes(c), self.jwt_secret())
                    && b64_key_ok(self.jwt_secret()) && !(c.iat <= now as int && (now as int)
                    < c.exp) ==> r is Err && r.unwrap_err() is Authentication,
    {
        let n = authorization.unicode_len();
        if n < 7 {
            proof {
                reveal_strlit("Bearer ");
            }
            return Err(ApiError::authentication());
        }
        let prefix_ok = authorization.get_char(0) == 'B' && authorization.get_char(1) == 'e'
            && authorization.get_char(2) == 'a' && authorization.get_char(3) == 'r'
            && authorization.get_char(4) == 'e' && authorization.get_char(5) == 'r'
            && authorization.get_char(6) == ' ';
        proof {
            reveal_strlit("Bearer ");
            if prefix_ok {
                assert(authorization@.subrange(0, 7) =~= "Bearer "@);
            } else {
                if authorization@.subrange(0, 7) == "Bearer "@ {
                    assert(authorization@[0] == authorization@.subrange(0, 7)[0]);
                    assert(authorization@[1] == authorization@.subrange(0, 7)[1]);
                    assert(authorization@[2] == authorization@.subrange(0, 7)[2]);
                    assert(authorization@[3] == authorization@.subrange(0, 7)[3]);
                    assert(authorization@[4] == authorization@.subrange(0, 7)[4]);
                    assert(authorization@[5] == authorization@.subrange(0, 7)[5]);
                    assert(authorization@[6] == authorization@.subrange(0, 7)[6]);
                    assert(false);
                }
            }
        }
        if !prefix_ok {
            return Err(ApiError::authentication());
        }
        let token = authorization.substring_char(7, n);
        proof {
            assert(token@ == bearer_token(authorization@));
        }
        self.token_service.parse_token_at(token, now)
    }

    /// Passes any caller bearing a valid, unexpired token.
    pub fn authenticated(&self, authorization: &str, now: i64) -> (r: Result<(), ApiError>)
        requires
            self.wf(),
        ensures
            !has_bearer_prefix(authorization@) ==> r is Err && r.unwrap_err()
                is Authentication,
            forall|c: AuthView|
                has_bearer_prefix(authorization@) && claims_wf(c) && bearer_token(
                    authorization@) == jwt_of(claims_bytes(c), self.jwt_secret())
                    && b64_key_ok(self.jwt_secret()) && c.iat <= now as int && (now as int)
                    < c.exp ==> r is Ok,
            forall|c: AuthView|
                has_bearer_prefix(authorization@) && claims_wf(c) && bearer_token(
                    authorization@) == jwt_of(claims_bytes(c), self.jwt_secret())
                    && b64_key_ok(self.jwt_secret()) && !(c.iat <= now as int && (now as int)
                    < c.exp) ==> r is Err && r.unwrap_err() is Authentication,
    {
        match self.auth_user(authorization, now) {
            Ok(_) => Ok(()),
            Err(e) => Err(e),
        }
    }

    /// Passes a valid caller only when the named permission travels in the
    /// token; a valid caller without it is refused, not re-authenticated.
    pub fn permissioned(&self, authorization: &str, permission: &str, now: i64) -> (r: Result<
        (),
        ApiError,
    >)
        requires
            self.wf(),
        ensures
            !has_bearer_prefix(authorization@) ==> r is Err && r.unwrap_err()
                is Authentication,
            forall|c: AuthView|
                has_bearer_prefix(authorization@) && claims_wf(c) && bearer_token(
                    authorization@) == jwt_of(claims_bytes(c), self.jwt_secret())
                    && b64_key_ok(self.jwt_secret()) && c.iat <= now as int && (now as int)
                    < c.exp ==> (c.permissions.contains(permission@) ==> r is Ok)
                    && (!c.permissions.contains(permission@) ==> r is Err && r.unwrap_err()
                    is Authorization),
            forall|c: AuthView|
                has_bearer_prefix(authorization@) && claims_wf(c) && bearer_token(
                    authorization@) == jwt_of(claims_bytes(c), self.jwt_secret())
                    && b64_key_ok(self.jwt_secret()) && !(c.iat <= now as int && (now as int)
                    < c.exp) ==> r is Err && r.unwrap_err() is Authentication,
    {
        let claims = match self.auth_user(authorization, now) {
            Ok(u) => u,
            Err(e) => {
                return Err(e);
            },
        };
        let wanted = permission.to_owned();
        if contains_str(&claims.permissions, &wanted) {
            Ok(())
        } else {
            Err(ApiError::authorization())
        }
    }
}

} // verus!
