//! Core domain values: token claims and the application configuration.
use vstd::prelude::*;

verus! {

/// The claims carried by a signed token.
///
/// `iat` and `exp` are whole seconds since the epoch.
#[derive(Debug)]
pub struct UserAuth {
    pub sub: String,
    pub login_id: String,
    pub session_id: String,
    pub permissions: Vec<String>,
    pub iat: i64,
    pub exp: i64,
}

/// Mathematical model of a set of claims.
#[verifier::ext_equal]
pub ghost struct AuthView {
    pub sub: Seq<char>,
    pub login_id: Seq<char>,
    pub session_id: Seq<char>,
    pub permissions: Seq<Seq<char>>,
    pub iat: int,
    pub exp: int,
}

impl View for UserAuth {
    type V = AuthView;

    open spec fn view(&self) -> AuthView {
        AuthView {
            sub: self.sub@,
            login_id: self.login_id@,
            session_id: self.session_id@,
            permissions: self.permissions.deep_view(),
            iat: self.iat as int,
            exp: self.exp as int,
        }
    }
}

#[derive(Debug)]
pub struct MongoConfig {
    pub uri: String,
    pub database: String,
}

#[derive(Debug)]
pub struct SessionConfig {
    pub secret_length: usize,
    pub lifetime_sec: i64,
}

#[derive(Debug)]
pub struct JwtConfig {
    pub secret: String,
    pub exp_sec: i64,
}

#[derive(Debug)]
pub struct AppConfig {
    pub app_name: String,
    pub mongo: MongoConfig,
    pub session: SessionConfig,
    pub jwt: JwtConfig,
}

impl SessionConfig {
    /// Machine bounds under which session expiry arithmetic cannot overflow.
    pub open spec fn wf(&self) -> bool {
        0 <= self.lifetime_sec <= 0x7fff_ffff_ffff
    }
}

impl JwtConfig {
    /// Machine bounds under which token expiry arithmetic cannot overflow.
    pub open spec fn wf(&self) -> bool {
        0 <= self.exp_sec <= 0x7fff_ffff_ffff
    }
}

impl AppConfig {
    pub open spec fn wf(&self) -> bool {
        self.session.wf() && self.jwt.wf()
    }
}

} // verus!
