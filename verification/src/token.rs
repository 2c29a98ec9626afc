//! Issuing and checking of signed, time-bound bearer tokens.
//!
//! The claims are framed by `crate::codec`; this module derives the signing
//! and verification keys from the configured base64 secret, caches them
//! behind a reader/writer lock that is written at most once, and states the
//! token string as `jwt_of` over the claim bytes and the secret.
use vstd::prelude::*;
use vstd::rwlock::{RwLock, RwLockPredicate};
use crate::codec::{claims_bytes, claims_wf, parse_claims, serialize_claims};
use crate::domain::{AuthView, JwtConfig, UserAuth};
use crate::errors::{ApiError, AuthenticationError, ServerError};
use crate::model::{Role, RoleView, User, UserSession};

verus! {

#[verifier::external_type_specification]
#[verifier::external_body]
pub struct ExEncodingKey(jsonwebtoken::EncodingKey);

#[verifier::external_type_specification]
#[verifier::external_body]
pub struct ExDecodingKey(jsonwebtoken::DecodingKey);

/// The compact signed token over given claim bytes and key secret. With the
/// fixed HS256 header and HMAC signing this is a pure function of the two.
pub uninterp spec fn jwt_of(claims: Seq<u8>, secret: Seq<char>) -> Seq<char>;

/// Whether a string is a standard-base64 secret that the key constructors
/// accept.
pub uninterp spec fn b64_key_ok(secret: Seq<char>) -> bool;

/// A matched pair of signing and verification keys, remembered together with
/// the secret they were derived from. Only `from_secret` builds a value, so
/// the keys always belong to the stored secret.
pub struct Keys {
    secret: String,
    enc: jsonwebtoken::EncodingKey,
    dec: jsonwebtoken::DecodingKey,
}

impl Keys {
    pub closed spec fn secret_view(&self) -> Seq<char> {
        self.secret@
    }

    /// Relies on `EncodingKey::from_base64_secret` and
    /// `DecodingKey::from_base64_secret`: the sister constructors decode the
    /// same standard base64, so they succeed on exactly the same secrets and
    /// yield a matched pair.
    #[verifier::external_body]
    pub fn from_secret(secret: &str) -> (r: Result<Keys, ServerError>)
        ensures
            r is Ok <==> b64_key_ok(secret@),
            r is Ok ==> r.unwrap().secret_view() == secret@,
    {
        let enc = match jsonwebtoken::EncodingKey::from_base64_secret(secret) {
            Ok(k) => k,
            Err(_) => return Err(ServerError::new()),
        };
        let dec = match jsonwebtoken::DecodingKey::from_base64_secret(secret) {
            Ok(k) => k,
            Err(_) => return Err(ServerError::new()),
        };
        Ok(Keys { secret: secret.to_owned(), enc, dec })
    }
}

/// Relies on `jsonwebtoken::encode` with an HS256 header: the raw claim
/// bytes pass through verbatim (`serde_json::value::RawValue`) and are
/// signed deterministically with the HMAC key of `keys`; for an HMAC key and
/// well-formed JSON this does not fail.
#[verifier::external_body]
fn jwt_encode(claims: &Vec<u8>, keys: &Keys) -> (r: String)
    requires
        exists|c: AuthView| claims_wf(c) && claims@ == claims_bytes(c),
    ensures
        r@ == jwt_of(claims@, keys.secret_view()),
{
    let raw = match String::from_utf8(claims.clone()) {
        Ok(s) => s,
        Err(_) => String::new(),
    };
    let rv = match serde_json::value::RawValue::from_string(raw) {
        Ok(v) => v,
        Err(_) => return String::new(),
    };
    let header = jsonwebtoken::Header::new(jsonwebtoken::Algorithm::HS256);
    jsonwebtoken::encode(&header, &rv, &keys.enc).unwrap_or_default()
}

/// Relies on `jsonwebtoken::decode` with HS256 and signature-only checks
/// (`validate_exp` off, no required claims): a token minted by
/// `jsonwebtoken::encode` with the paired key verifies, and its embedded
/// claim bytes come back verbatim (`serde_json::value::RawValue`). Temporal
/// checks are the caller's.
#[verifier::external_body]
fn jwt_decode(token: &str, keys: &Keys) -> (r: Result<Vec<u8>, AuthenticationError>)
    ensures
        forall|c: AuthView|
            claims_wf(c) && token@ == jwt_of(claims_bytes(c), keys.secret_view()) ==> r is Ok
                && r.unwrap()@ == claims_bytes(c),
{
    let mut v = jsonwebtoken::Validation::new(jsonwebtoken::Algorithm::HS256);
    v.validate_exp = false;
    v.required_spec_claims.clear();
    match jsonwebtoken::decode::<Box<serde_json::value::RawValue>>(token, &keys.dec, &v) {
        Ok(d) => Ok(d.claims.get().as_bytes().to_vec()),
        Err(_) => Err(AuthenticationError::new()),
    }
}

/// The one shared mutable value of the subsystem: the key pair, present once
/// derived, and always derived from the configured secret.
pub ghost struct KeyCachePred {
    pub secret: Seq<char>,
}

impl RwLockPredicate<Option<Keys>> for KeyCachePred {
    open spec fn inv(self, v: Option<Keys>) -> bool {
        v is Some ==> v.unwrap().secret_view() == self.secret && b64_key_ok(self.secret)
    }
}

/// Adds a permission once, keeping the first occurrence's position.
pub open spec fn dedup_push(acc: Seq<Seq<char>>, p: Seq<char>) -> Seq<Seq<char>> {
    if acc.contains(p) {
        acc
    } else {
        acc.push(p)
    }
}

pub open spec fn fold_perms(acc: Seq<Seq<char>>, perms: Seq<Seq<char>>) -> Seq<Seq<char>>
    decreases perms.len(),
{
    if perms.len() == 0 {
        acc
    } else {
        fold_perms(dedup_push(acc, perms[0]), perms.drop_first())
    }
}

pub open spec fn fold_roles(acc: Seq<Seq<char>>, roles: Seq<RoleView>) -> Seq<Seq<char>>
    decreases roles.len(),
{
    if roles.len() == 0 {
        acc
    } else {
        fold_roles(fold_perms(acc, roles[0].permissions), roles.drop_first())
    }
}

/// The union of the roles' permissions, first occurrence first, without
/// duplicates.
pub open spec fn dedup_perms(roles: Seq<RoleView>) -> Seq<Seq<char>> {
    fold_roles(Seq::empty(), roles)
}

/// Whether some role in the sequence grants the permission.
pub open spec fn role_grants(roles: Seq<RoleView>, p: Seq<char>) -> bool {
    exists|i: int| 0 <= i < roles.len() && roles[i].permissions.contains(p)
}

pub proof fn lemma_fold_perms_append(acc: Seq<Seq<char>>, perms: Seq<Seq<char>>, p: Seq<char>)
    ensures
        fold_perms(acc, perms.push(p)) == dedup_push(fold_perms(acc, perms), p),
    decreases perms.len(),
{
    assert(perms.push(p).len() == perms.len() + 1);
    assert(fold_perms(acc, perms.push(p)) == fold_perms(dedup_push(acc, perms.push(p)[0]),
        perms.push(p).drop_first()));
    if perms.len() == 0 {
        assert(perms.push(p).drop_first() =~= Seq::<Seq<char>>::empty());
        assert(perms.push(p)[0] == p);
        assert(fold_perms(dedup_push(acc, p), Seq::<Seq<char>>::empty()) == dedup_push(acc, p));
    } else {
        assert(perms.push(p).drop_first() =~= perms.drop_first().push(p));
        assert(perms.push(p)[0] == perms[0]);
        lemma_fold_perms_append(dedup_push(acc, perms[0]), perms.drop_first(), p);
    }
}

pub proof fn lemma_fold_roles_append(acc: Seq<Seq<char>>, roles: Seq<RoleView>, r: RoleView)
    ensures
        fold_roles(acc, roles.push(r)) == fold_perms(fold_roles(acc, roles), r.permissions),
    decreases roles.len(),
{
    assert(fold_roles(acc, roles.push(r)) == fold_roles(fold_perms(acc,
        roles.push(r)[0].permissions), roles.push(r).drop_first()));
    if roles.len() == 0 {
        assert(roles.push(r).drop_first() =~= Seq::<RoleView>::empty());
        assert(roles.push(r)[0] == r);
        assert(fold_roles(fold_perms(acc, r.permissions), Seq::<RoleView>::empty())
            == fold_perms(acc, r.permissions));
        assert(fold_roles(acc, roles) == acc);
    } else {
        assert(roles.push(r).drop_first() =~= roles.drop_first().push(r));
        assert(roles.push(r)[0] == roles[0]);
        lemma_fold_roles_append(fold_perms(acc, roles[0].permissions), roles.drop_first(), r);
    }
}

/// Whether a vector of strings holds the given string.
pub fn contains_str(v: &Vec<String>, s: &String) -> (r: bool)
    ensures
        r == v.deep_view().contains(s@),
{
    let mut i: usize = 0;
    while i < v.len()
        invariant
            i <= v.len(),
            forall|k: int| 0 <= k < i ==> v.deep_view()[k] != s@,
        decreases v.len() - i,
    {
        if v[i] == *s {
            proof {
                assert(v.deep_view()[i as int] == s@);
            }
            return true;
        }
        i = i + 1;
    }
    proof {
        if v.deep_view().contains(s@) {
            let k = choose|k: int| 0 <= k < v.deep_view().len() && v.deep_view()[k] == s@;
            assert(v.deep_view()[k] == s@);
        }
    }
    false
}

/// Flattens the roles' permissions into one deduplicated list.
pub fn collect_permissions(roles: &Vec<Role>) -> (r: Vec<String>)
    ensures
        r.deep_view() == dedup_perms(roles.deep_view()),
{
    let mut out: Vec<String> = Vec::new();
    proof {
        assert(out.deep_view() =~= Seq::<Seq<char>>::empty());
        assert(roles.deep_view().take(0) =~= Seq::<RoleView>::empty());
    }
    let mut i: usize = 0;
    while i < roles.len()
        invariant
            i <= roles.len(),
            out.deep_view() == fold_roles(Seq::empty(), roles.deep_view().take(i as int)),
        decreases roles.len() - i,
    {
        let role = &roles[i];
        let ghost racc = out.deep_view();
        let mut j: usize = 0;
        proof {
            assert(role.permissions.deep_view().take(0) =~= Seq::<Seq<char>>::empty());
        }
        while j < role.permissions.len()
            invariant
                j <= role.permissions.len(),
                out.deep_view() == fold_perms(racc, role.permissions.deep_view().take(j as int)),
            decreases role.permissions.len() - j,
        {
            let p = &role.permissions[j];
            let ghost before = out.deep_view();
            if !contains_str(&out, p) {
                out.push(p.clone());
                proof {
                    assert(out.deep_view() =~= before.push(p@));
                }
            }
            proof {
                let pv = role.permissions.deep_view();
                assert(pv.take(j as int).push(pv[j as int]) =~= pv.take(j + 1));
                lemma_fold_perms_append(racc, pv.take(j as int), pv[j as int]);
                assert(out.deep_view() == dedup_push(before, pv[j as int]));
            }
            j = j + 1;
        }
        proof {
            let rv = roles.deep_view();
            assert(role.permissions.deep_view().take(role.permissions.len() as int)
                =~= role.permissions.deep_view());
            assert(rv[i as int].permissions == role.permissions.deep_view());
            assert(rv.take(i as int).push(rv[i as int]) =~= rv.take(i + 1));
            lemma_fold_roles_append(Seq::empty(), rv.take(i as int), rv[i as int]);
        }
        i = i + 1;
    }
    proof {
        assert(roles.deep_view().take(roles.len() as int) =~= roles.deep_view());
    }
    out
}

/// The claims issued for a user and session at `now`.
pub open spec fn token_claims(
    u: crate::model::UserView,
    s: crate::model::UserSessionView,
    roles: Seq<RoleView>,
    now: int,
    exp_sec: int,
) -> AuthView {
    AuthView {
        sub: u.id,
        login_id: u.login_id,
        session_id: s.id,
        permissions: dedup_perms(roles),
        iat: now,
        exp: now + exp_sec,
    }
}

/// The token codec: stateless but for the cached key pair.
pub struct TokenServiceImpl {
    config: JwtConfig,
    cache: RwLock<Option<Keys>, KeyCachePred>,
}

impl TokenServiceImpl {
    pub closed spec fn wf(&self) -> bool {
        self.cache.pred() == (KeyCachePred { secret: self.config.secret@ }) && self.config.wf()
    }

    pub closed spec fn spec_secret(&self) -> Seq<char> {
        self.config.secret@
    }

    pub closed spec fn spec_exp_sec(&self) -> int {
        self.config.exp_sec as int
    }

    pub fn new(config: JwtConfig) -> (r: TokenServiceImpl)
        requires
            config.wf(),
        ensures
            r.wf(),
            r.spec_secret() == config.secret@,
            r.spec_exp_sec() == config.exp_sec as int,
    {
        let ghost pred = KeyCachePred { secret: config.secret@ };
        let cache = RwLock::<Option<Keys>, KeyCachePred>::new(None, Ghost(pred));
        TokenServiceImpl { config, cache }
    }

    /// Signs the given claim bytes, deriving and caching the keys on first
    /// use: a shared read on the hit path, an exclusive write with a recheck
    /// on a miss.
    fn sign_claims(&self, claims: &Vec<u8>) -> (r: Result<String, ApiError>)
        requires
            self.wf(),
            exists|c: AuthView| claims_wf(c) && claims@ == claims_bytes(c),
        ensures
            r is Ok <==> b64_key_ok(self.spec_secret()),
            r is Ok ==> r.unwrap()@ == jwt_of(claims@, self.spec_secret()),
            r is Err ==> r.unwrap_err() is Server,
    {
        let read = self.cache.acquire_read();
        let hit: Option<String> = match read.borrow() {
            Some(k) => Some(jwt_encode(claims, k)),
            None => None,
        };
        read.release_read();
        match hit {
            Some(t) => Ok(t),
            None => {
                let fresh = match Keys::from_secret(self.config.secret.as_str()) {
                    Ok(k) => k,
                    Err(_) => {
                        return Err(ApiError::server());
                    },
                };
                let (cur, write) = self.cache.acquire_write();
                let stored = match cur {
                    Some(k) => Some(k),
                    None => Some(fresh),
                };
                let token = match &stored {
                    Some(k) => jwt_encode(claims, k),
                    None => vstd::pervasive::unreached(),
                };
                write.release_write(stored);
                Ok(token)
            },
        }
    }

    /// Checks the signature on a token and hands back the embedded claim
    /// bytes, deriving and caching the keys as `sign_claims` does.
    fn open_token(&self, token: &str) -> (r: Result<Vec<u8>, ApiError>)
        requires
            self.wf(),
        ensures
            !b64_key_ok(self.spec_secret()) ==> r is Err && r.unwrap_err() is Server,
            forall|c: AuthView|
                claims_wf(c) && token@ == jwt_of(claims_bytes(c), self.spec_secret()) ==> (
                r is Ok && r.unwrap()@ == claims_bytes(c) || r is Err && r.unwrap_err()
                    is Server),
            b64_key_ok(self.spec_secret()) ==> (r is Err ==> r.unwrap_err() is Authentication),
    {
        let read = self.cache.acquire_read();
        let hit: Option<Result<Vec<u8>, AuthenticationError>> = match read.borrow() {
            Some(k) => Some(jwt_decode(token, k)),
            None => None,
        };
        read.release_read();
        match hit {
            Some(d) => match d {
                Ok(v) => Ok(v),
                Err(e) => Err(ApiError::Authentication(e)),
            },
            None => {
                let fresh = match Keys::from_secret(self.config.secret.as_str()) {
                    Ok(k) => k,
                    Err(_) => {
                        return Err(ApiError::server());
                    },
                };
                let (cur, write) = self.cache.acquire_write();
                let stored = match cur {
                    Some(k) => Some(k),
                    None => Some(fresh),
                };
                let d = match &stored {
                    Some(k) => jwt_decode(token, k),
                    None => vstd::pervasive::unreached(),
                };
                write.release_write(stored);
                match d {
                    Ok(v) => Ok(v),
                    Err(e) => Err(ApiError::Authentication(e)),
                }
            },
        }
    }
}

/// Relies on `chrono::Utc::now`: the current time in whole seconds since
/// the epoch. Nothing is assumed of the clock's value.
#[verifier::external_body]
pub fn current_timestamp() -> (r: i64)
{
    chrono::Utc::now().timestamp()
}

impl TokenServiceImpl {
    /// Issues a token for the user and session at the instant `now`,
    /// carrying the union of the roles' permissions.
    pub fn create_token_at(
        &self,
        user: &User,
        session: &UserSession,
        roles: &Vec<Role>,
        now: i64,
    ) -> (r: Result<String, ApiError>)
        requires
            self.wf(),
            0 <= now <= 0x7fff_ffff_ffff,
        ensures
            r is Ok <==> b64_key_ok(self.spec_secret()),
            r is Ok ==> r.unwrap()@ == jwt_of(
                claims_bytes(token_claims(user@, session@, roles.deep_view(), (now as int),
                    self.spec_exp_sec())), self.spec_secret()),
            r is Err ==> r.unwrap_err() is Server,
    {
        let perms = collect_permissions(roles);
        let exp = now + self.config.exp_sec;
        let ua = UserAuth {
            sub: user.id.clone(),
            login_id: user.login_id.clone(),
            session_id: session.id.clone(),
            permissions: perms,
            iat: now,
            exp,
        };
        proof {
            assert(ua@ =~= token_claims(user@, session@, roles.deep_view(), (now as int),
                self.spec_exp_sec()));
            assert(claims_wf(ua@));
        }
        let bytes = serialize_claims(&ua);
        self.sign_claims(&bytes)
    }

    /// Issues a token at the clock's current instant.
    pub fn create_token(
        &self,
        user: &User,
        session: &UserSession,
        roles: &Vec<Role>,
    ) -> (r: Result<String, ApiError>)
        requires
            self.wf(),
        ensures
            !b64_key_ok(self.spec_secret()) ==> r is Err,
            r is Ok ==> b64_key_ok(self.spec_secret()) && exists|now: int|
                0 <= now && r.unwrap()@ == jwt_of(
                    claims_bytes(token_claims(user@, session@, roles.deep_view(), now,
                        self.spec_exp_sec())), self.spec_secret()),
            r is Err ==> r.unwrap_err() is Server,
    {
        let now = current_timestamp();
        if !(0 <= now && now <= 0x7fff_ffff_ffff) {
            return Err(ApiError::server());
        }
        self.create_token_at(user, session, roles, now)
    }

    /// Checks a token's signature and temporal claims against the instant
    /// `now`: valid exactly from its issue instant up to, and excluding, its
    /// expiry instant.
    pub fn parse_token_at(&self, token: &str, now: i64) -> (r: Result<UserAuth, ApiError>)
        requires
            self.wf(),
        ensures
            !b64_key_ok(self.spec_secret()) ==> r is Err && r.unwrap_err() is Server,
            r is Ok ==> claims_wf(r.unwrap()@) && r.unwrap()@.iat <= (now as int)
                && (now as int) < r.unwrap()@.exp,
            forall|c: AuthView|
                claims_wf(c) && token@ == jwt_of(claims_bytes(c), self.spec_secret())
                    && b64_key_ok(self.spec_secret()) && c.iat <= (now as int) && (now as int) < c.exp ==> r
                    is Ok && r.unwrap()@ == c,
            forall|c: AuthView|
                claims_wf(c) && token@ == jwt_of(claims_bytes(c), self.spec_secret())
                    && b64_key_ok(self.spec_secret()) && !(c.iat <= (now as int) && (now as int) < c.exp) ==> r
                    is Err && r.unwrap_err() is Authentication,
            b64_key_ok(self.spec_secret()) && r is Err ==> r.unwrap_err() is Authentication,
    {
        let bytes = match self.open_token(token) {
            Ok(v) => v,
            Err(e) => {
                return Err(e);
            },
        };
        match parse_claims(bytes.as_slice()) {
            Some(ua) => {
                if ua.iat <= now && now < ua.exp {
                    Ok(ua)
                } else {
                    Err(ApiError::authentication())
                }
            },
            None => Err(ApiError::authentication()),
        }
    }

    /// Checks a token against the clock's current instant.
    pub fn parse_token(&self, token: &str) -> (r: Result<UserAuth, ApiError>)
        requires
            self.wf(),
        ensures
            !b64_key_ok(self.spec_secret()) ==> r is Err && r.unwrap_err() is Server,
            r is Ok ==> claims_wf(r.unwrap()@) && r.unwrap()@.iat < r.unwrap()@.exp,
            b64_key_ok(self.spec_secret()) && r is Err ==> r.unwrap_err() is Authentication,
    {
        let now = current_timestamp();
        self.parse_token_at(token, now)
    }
}

} // verus!
