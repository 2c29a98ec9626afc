//! The session lifecycle: login, token refresh, and sign-out.
//!
//! Each session moves from created to active to revoked, and never back; a
//! revocation only attaches an expiry record.
use vstd::prelude::*;
use crate::codec::claims_bytes;
use crate::domain::AppConfig;
use crate::dto::{LogInRequest, LogInResponse, RefreshRequest, RefreshResponse};
use crate::errors::ApiError;
use crate::hash::{bcrypt_matches, HashServiceImpl};
use crate::model::{RoleView, SessionExpiry, UserSession, UserSessionView, UserView,
    EXPIRY_REASON_LOG_OUT, SESSION_TYPE_USER};
use crate::random::{is_alnum_char, new_uuid_string, random_alphanumeric};
use crate::repository::{find_active_session, find_user_by_id, find_user_by_login,
    roles_by_ids, upsert_session, UserSessionRepositoryImpl};
use crate::roles::RolesServiceImpl;
use crate::token::{b64_key_ok, current_timestamp, jwt_of, token_claims, TokenServiceImpl};
use crate::users::UsersServiceImpl;

verus! {

/// The token owed to the owner of `sess` at the instant `now`.
pub open spec fn owed_token(
    u: UserView,
    sess: UserSessionView,
    roles: Seq<RoleView>,
    now: int,
    exp_sec: int,
    secret: Seq<char>,
) -> Seq<char> {
    jwt_of(claims_bytes(token_claims(u, sess, roles_by_ids(roles, u.role_ids), now, exp_sec)),
        secret)
}

/// The session record as revoked by its own user at `now` with the explicit
/// sign-out reason.
pub open spec fn revoked_at(sess: UserSessionView, now: int) -> UserSessionView {
    UserSessionView {
        expired: Some(crate::model::SessionExpiryView {
            expired_by: sess.user_id,
            expired_at: now,
            reason: EXPIRY_REASON_LOG_OUT@,
        }),
        ..sess
    }
}

pub struct SessionServiceImpl {
    config: AppConfig,
    hash_service: HashServiceImpl,
    token_service: TokenServiceImpl,
    users_service: UsersServiceImpl,
    roles_service: RolesServiceImpl,
    session_repository: UserSessionRepositoryImpl,
}

impl SessionServiceImpl {
    pub closed spec fn wf(&self) -> bool {
        self.token_service.wf() && self.config.wf()
    }

    pub closed spec fn users_view(&self) -> Seq<UserView> {
        self.users_service@
    }

    pub closed spec fn sessions_view(&self) -> Seq<UserSessionView> {
        self.session_repository@
    }

    pub closed spec fn roles_view(&self) -> Seq<RoleView> {
        self.roles_service@
    }

    pub closed spec fn secret_length(&self) -> int {
        self.config.session.secret_length as int
    }

    pub closed spec fn session_lifetime(&self) -> int {
        self.config.session.lifetime_sec as int
    }

    pub closed spec fn jwt_secret(&self) -> Seq<char> {
        self.token_service.spec_secret()
    }

    pub closed spec fn jwt_exp_sec(&self) -> int {
        self.token_service.spec_exp_sec()
    }

    /// Everything except the session store, kept as it was.
    pub open spec fn same_but_sessions(pre: Self, post: Self) -> bool {
        post.users_view() == pre.users_view() && post.roles_view() == pre.roles_view()
            && post.wf() == pre.wf() && post.secret_length() == pre.secret_length()
            && post.session_lifetime() == pre.session_lifetime() && post.jwt_secret()
            == pre.jwt_secret() && post.jwt_exp_sec() == pre.jwt_exp_sec()
    }

    pub fn new(
        config: AppConfig,
        hash_service: HashServiceImpl,
        token_service: TokenServiceImpl,
        users_service: UsersServiceImpl,
        roles_service: RolesServiceImpl,
        session_repository: UserSessionRepositoryImpl,
    ) -> (r: SessionServiceImpl)
        requires
            config.wf(),
            token_service.wf(),
        ensures
            r.wf(),
            r.users_view() == users_service@,
            r.sessions_view() == session_repository@,
            r.roles_view() == roles_service@,
            r.secret_length() == config.session.secret_length as int,
            r.session_lifetime() == config.session.lifetime_sec as int,
            r.jwt_secret() == token_service.spec_secret(),
            r.jwt_exp_sec() == token_service.spec_exp_sec(),
    {
        SessionServiceImpl {
            config,
            hash_service,
            token_service,
            users_service,
            roles_service,
            session_repository,
        }
    }

    /// Logs an identity in at the instant `now`: verifies the password,
    /// persists a fresh session with a hashed one-time secret, and issues a
    /// token. An unknown login and a wrong password fail alike.
    pub fn create_session(&mut self, request: &LogInRequest, now: i64) -> (r: Result<
        LogInResponse,
        ApiError,
    >)
        requires
            old(self).wf(),
            0 <= now <= 0x7fff_ffff_ffff,
        ensures
            Self::same_but_sessions(*old(self), *final(self)),
            final(self).wf(),
            r is Err ==> r.unwrap_err() is Authentication || r.unwrap_err() is Server,
            r is Ok ==> forall|k: int|
                0 <= k < r.unwrap().session_secret@.len() ==> is_alnum_char(
                    #[trigger] r.unwrap().session_secret@[k]),
            ({
                let found = find_user_by_login(old(self).users_view(), request.login_id@);
                &&& (found is None || !bcrypt_matches(request.password@,
                    found.unwrap().password)) ==> r is Err && r.unwrap_err() is Authentication
                    && final(self).sessions_view() == old(self).sessions_view()
                &&& (found is Some && bcrypt_matches(request.password@,
                    found.unwrap().password)) ==> {
                    &&& r is Err ==> r.unwrap_err() is Server
                    &&& r is Ok ==> b64_key_ok(old(self).jwt_secret())
                        && exists|sess: UserSessionView|
                        {
                            let u = found.unwrap();
                            &&& sess.user_id == u.id
                            &&& sess.session_type == SESSION_TYPE_USER@
                            &&& sess.created_at == now as int
                            &&& sess.expire_at == now + old(self).session_lifetime()
                            &&& sess.expired is None
                            &&& bcrypt_matches(r.unwrap().session_secret@,
                                sess.session_secret)
                            &&& r.unwrap().session_secret@.len() == old(self).secret_length()
                            &&& r.unwrap().session_id@ == sess.id
                            &&& final(self).sessions_view() == #[trigger] upsert_session(
                                old(self).sessions_view(), sess)
                            &&& r.unwrap().token@ == owed_token(u, sess,
                                old(self).roles_view(), now as int, old(self).jwt_exp_sec(),
                                old(self).jwt_secret())
                        }
                }
            }),
    {
        let user = match self.users_service.get_user_by_login_id(&request.login_id) {
            Some(u) => u,
            None => {
                return Err(ApiError::authentication());
            },
        };
        if !self.hash_service.verify_pw(request.password.as_str(), user.password.as_str()) {
            return Err(ApiError::authentication());
        }
        let session_secret = random_alphanumeric(self.config.session.secret_length);
        let digest = match self.hash_service.hash_pw(session_secret.as_str()) {
            Ok(d) => d,
            Err(e) => {
                return Err(ApiError::Server(e));
            },
        };
        let expire_at = now + self.config.session.lifetime_sec;
        let session = UserSession {
            id: new_uuid_string(),
            user_id: user.id.clone(),
            session_type: SESSION_TYPE_USER.to_owned(),
            session_secret: digest,
            created_at: now,
            expire_at,
            expired: None,
        };
        self.session_repository.save(&session);
        let roles = self.roles_service.get_roles_by_id(&user.role_ids);
        let token = match self.token_service.create_token_at(&user, &session, &roles, now) {
            Ok(t) => t,
            Err(e) => {
                return Err(e);
            },
        };
        proof {
            let found = find_user_by_login(old(self).users_view(), request.login_id@);
            assert(user@ == found.unwrap());
            assert(self.sessions_view() == upsert_session(old(self).sessions_view(),
                session@));
            assert(token@ == owed_token(user@, session@, old(self).roles_view(), now as int,
                old(self).jwt_exp_sec(), old(self).jwt_secret()));
        }
        Ok(LogInResponse { session_id: session.id.clone(), session_secret, token })
    }

    /// Issues a fresh token for an active session whose secret checks out;
    /// the session's own expiry is unaffected. An active session without an
    /// owner is an internal inconsistency, not an authentication failure.
    pub fn refresh_token(&self, request: &RefreshRequest, now: i64) -> (r: Result<
        RefreshResponse,
        ApiError,
    >)
        requires
            self.wf(),
            0 <= now <= 0x7fff_ffff_ffff,
        ensures
            r is Err ==> r.unwrap_err() is Authentication || r.unwrap_err() is Server,
            ({
                let found = find_active_session(self.sessions_view(), request.session_id@,
                    now as int);
                &&& found is None ==> r is Err && r.unwrap_err() is Authentication
                &&& (found is Some && !bcrypt_matches(request.session_secret@,
                    found.unwrap().session_secret)) ==> r is Err && r.unwrap_err()
                    is Authentication
                &&& (found is Some && bcrypt_matches(request.session_secret@,
                    found.unwrap().session_secret)) ==> {
                    let owner = find_user_by_id(self.users_view(), found.unwrap().user_id);
                    &&& owner is None ==> r is Err && r.unwrap_err() is Server
                    &&& (owner is Some && b64_key_ok(self.jwt_secret())) ==> r is Ok
                        && r.unwrap().token@ == owed_token(owner.unwrap(), found.unwrap(),
                        self.roles_view(), now as int, self.jwt_exp_sec(), self.jwt_secret())
                    &&& (owner is Some && !b64_key_ok(self.jwt_secret())) ==> r is Err
                        && r.unwrap_err() is Server
                }
            }),
    {
        let session = match self.session_repository.find_active_by_id(&request.session_id,
            now) {
            Some(s) => s,
            None => {
                return Err(ApiError::authentication());
            },
        };
        if !self.hash_service.verify_pw(request.session_secret.as_str(),
            session.session_secret.as_str()) {
            return Err(ApiError::authentication());
        }
        let user = match self.users_service.get_user(&session.user_id) {
            Some(u) => u,
            None => {
                return Err(ApiError::server());
            },
        };
        let roles = self.roles_service.get_roles_by_id(&user.role_ids);
        let token = match self.token_service.create_token_at(&user, &session, &roles, now) {
            Ok(t) => t,
            Err(e) => {
                return Err(e);
            },
        };
        Ok(RefreshResponse { token })
    }

    /// Revokes the active session by attaching an expiry record. Revoking a
    /// session that is already gone is a validation failure, since the
    /// caller's own credential was fine.
    pub fn sign_out(&mut self, session_id: &String, now: i64) -> (r: Result<(), ApiError>)
        requires
            old(self).wf(),
            0 <= now <= 0x7fff_ffff_ffff,
        ensures
            Self::same_but_sessions(*old(self), *final(self)),
            final(self).wf(),
            r is Err ==> r.unwrap_err() is Validation,
            ({
                let found = find_active_session(old(self).sessions_view(), session_id@,
                    now as int);
                &&& found is None ==> r is Err && r.unwrap_err() is Validation
                    && final(self).sessions_view() == old(self).sessions_view()
                &&& found is Some ==> r is Ok && final(self).sessions_view() == upsert_session(
                    old(self).sessions_view(), revoked_at(found.unwrap(), now as int))
            }),
    {
        let session = match self.session_repository.find_active_by_id(session_id, now) {
            Some(s) => s,
            None => {
                return Err(ApiError::validation());
            },
        };
        let revoked = UserSession {
            id: session.id,
            user_id: session.user_id.clone(),
            session_type: session.session_type,
            session_secret: session.session_secret,
            created_at: session.created_at,
            expire_at: session.expire_at,
            expired: Some(SessionExpiry {
                expired_by: session.user_id,
                expired_at: now,
                reason: EXPIRY_REASON_LOG_OUT.to_owned(),
            }),
        };
        self.session_repository.save(&revoked);
        proof {
            let found = find_active_session(old(self).sessions_view(), session_id@,
                now as int);
            assert(revoked@ =~= revoked_at(found.unwrap(), now as int));
        }
        Ok(())
    }

    /// Logs in at the clock's current instant. Success cannot be promised,
    /// since the clock decides; what any success means is stated for a
    /// witnessed instant.
    pub fn create_session_now(&mut self, request: &LogInRequest) -> (r: Result<
        LogInResponse,
        ApiError,
    >)
        requires
            old(self).wf(),
        ensures
            Self::same_but_sessions(*old(self), *final(self)),
            final(self).wf(),
            r is Err ==> r.unwrap_err() is Authentication || r.unwrap_err() is Server,
            r is Err && r.unwrap_err() is Authentication ==> final(self).sessions_view()
                == old(self).sessions_view(),
            r is Ok ==> forall|k: int|
                0 <= k < r.unwrap().session_secret@.len() ==> is_alnum_char(
                    #[trigger] r.unwrap().session_secret@[k]),
            r is Ok ==> exists|sess: UserSessionView|
                {
                    let found = find_user_by_login(old(self).users_view(),
                        request.login_id@);
                    &&& 0 <= sess.created_at <= 0x7fff_ffff_ffff
                    &&& found is Some
                    &&& bcrypt_matches(request.password@, found.unwrap().password)
                    &&& sess.user_id == found.unwrap().id
                    &&& sess.session_type == SESSION_TYPE_USER@
                    &&& sess.expire_at == sess.created_at + old(self).session_lifetime()
                    &&& sess.expired is None
                    &&& bcrypt_matches(r.unwrap().session_secret@, sess.session_secret)
                    &&& r.unwrap().session_secret@.len() == old(self).secret_length()
                    &&& r.unwrap().session_id@ == sess.id
                    &&& final(self).sessions_view() == #[trigger] upsert_session(
                        old(self).sessions_view(), sess)
                    &&& r.unwrap().token@ == owed_token(found.unwrap(), sess,
                        old(self).roles_view(), sess.created_at, old(self).jwt_exp_sec(),
                        old(self).jwt_secret())
                },
    {
        let now = current_timestamp();
        if !(0 <= now && now <= 0x7fff_ffff_ffff) {
            return Err(ApiError::server());
        }
        self.create_session(request, now)
    }

    /// Refreshes at the clock's current instant. Any token handed out is
    /// owed, at a witnessed instant, to the owner of an active session whose
    /// secret checked out.
    pub fn refresh_token_now(&self, request: &RefreshRequest) -> (r: Result<
        RefreshResponse,
        ApiError,
    >)
        requires
            self.wf(),
        ensures
            r is Err ==> r.unwrap_err() is Authentication || r.unwrap_err() is Server,
            r is Ok ==> exists|now: int|
                #![trigger find_active_session(self.sessions_view(), request.session_id@, now)]
                {
                    let found = find_active_session(self.sessions_view(),
                        request.session_id@, now);
                    &&& 0 <= now <= 0x7fff_ffff_ffff
                    &&& found is Some
                    &&& bcrypt_matches(request.session_secret@,
                        found.unwrap().session_secret)
                    &&& {
                        let owner = find_user_by_id(self.users_view(),
                            found.unwrap().user_id);
                        owner is Some && r.unwrap().token@ == owed_token(owner.unwrap(),
                            found.unwrap(), self.roles_view(), now, self.jwt_exp_sec(),
                            self.jwt_secret())
                    }
                },
    {
        let now = current_timestamp();
        if !(0 <= now && now <= 0x7fff_ffff_ffff) {
            return Err(ApiError::server());
        }
        self.refresh_token(request, now)
    }

    /// Signs out at the clock's current instant. Any success revoked an
    /// active session at a witnessed instant; failure leaves the store as it
    /// was.
    pub fn sign_out_now(&mut self, session_id: &String) -> (r: Result<(), ApiError>)
        requires
            old(self).wf(),
        ensures
            Self::same_but_sessions(*old(self), *final(self)),
            final(self).wf(),
            r is Err ==> final(self).sessions_view() == old(self).sessions_view()
                && (r.unwrap_err() is Validation || r.unwrap_err() is Server),
            r is Ok ==> exists|now: int|
                #![trigger find_active_session(old(self).sessions_view(), session_id@, now)]
                {
                    let found = find_active_session(old(self).sessions_view(),
                        session_id@, now);
                    &&& 0 <= now <= 0x7fff_ffff_ffff
                    &&& found is Some
                    &&& final(self).sessions_view() == upsert_session(
                        old(self).sessions_view(), revoked_at(found.unwrap(), now))
                },
    {
        let now = current_timestamp();
        if !(0 <= now && now <= 0x7fff_ffff_ffff) {
            return Err(ApiError::server());
        }
        self.sign_out(session_id, now)
    }
}

} // verus!
