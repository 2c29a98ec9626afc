use ausawards::domain::{AppConfig, JwtConfig, MongoConfig, SessionConfig};
use ausawards::dto::{CreateSystemAdminUserRequest, LogInRequest, RefreshRequest};
use ausawards::errors::ApiError;
use ausawards::filter::AuthenticationFilterImpl;
use ausawards::hash::HashServiceImpl;
use ausawards::model::Role;
use ausawards::repository::{RoleRepositoryImpl, UserSessionRepositoryImpl,
    UsersRepositoryImpl};
use ausawards::roles::RolesServiceImpl;
use ausawards::session::SessionServiceImpl;
use ausawards::token::TokenServiceImpl;
use ausawards::users::{UserConverterImpl, UsersServiceImpl};

fn test_config() -> AppConfig {
    AppConfig {
        app_name: String::from("ausawards"),
        mongo: MongoConfig {
            uri: String::from("mongodb://localhost"),
            database: String::from("test"),
        },
        session: SessionConfig { secret_length: 16, lifetime_sec: 3600 },
        jwt: JwtConfig { secret: String::from("c2VjcmV0"), exp_sec: 600 },
    }
}

fn admin_role() -> Role {
    Role {
        id: String::from("admin"),
        name: String::from("Administrator"),
        permissions: vec![String::from("createAward")],
    }
}

fn build_service(roles: Vec<Role>) -> (SessionServiceImpl, String) {
    let cfg = test_config();
    let mut users_service = UsersServiceImpl::new(
        UserConverterImpl::new(),
        HashServiceImpl::new(),
        UsersRepositoryImpl::new(),
    );
    let dto = users_service
        .create_admin_user(&CreateSystemAdminUserRequest {
            login_id: String::from("u1"),
            password: String::from("hunter2"),
            role_ids: vec![String::from("admin")],
        })
        .expect("user creation");
    let token_service = TokenServiceImpl::new(JwtConfig {
        secret: cfg.jwt.secret.clone(),
        exp_sec: cfg.jwt.exp_sec,
    });
    let roles_service = RolesServiceImpl::new(RoleRepositoryImpl::new(roles));
    let svc = SessionServiceImpl::new(
        cfg,
        HashServiceImpl::new(),
        token_service,
        users_service,
        roles_service,
        UserSessionRepositoryImpl::new(),
    );
    (svc, dto.id)
}

fn filter() -> AuthenticationFilterImpl {
    AuthenticationFilterImpl::new(TokenServiceImpl::new(JwtConfig {
        secret: String::from("c2VjcmV0"),
        exp_sec: 600,
    }))
}

#[test]
fn login_then_refresh_succeeds() {
    let (mut svc, user_id) = build_service(vec![admin_role()]);
    let now: i64 = 1_700_000_000;
    let login = svc
        .create_session(
            &LogInRequest { login_id: String::from("u1"), password: String::from("hunter2") },
            now,
        )
        .expect("login");
    let refreshed = svc
        .refresh_token(
            &RefreshRequest {
                session_id: login.session_id.clone(),
                session_secret: login.session_secret.clone(),
            },
            now,
        )
        .expect("refresh");
    let parser = TokenServiceImpl::new(JwtConfig {
        secret: String::from("c2VjcmV0"),
        exp_sec: 600,
    });
    let claims = parser.parse_token_at(&refreshed.token, now).expect("parse");
    assert_eq!(claims.sub, user_id);
    assert_eq!(claims.login_id, "u1");
    assert_eq!(claims.session_id, login.session_id);
    assert_eq!(claims.permissions, vec![String::from("createAward")]);
}

#[test]
fn login_rejects_unknown_login_and_wrong_password() {
    let (mut svc, _) = build_service(vec![admin_role()]);
    let now: i64 = 1_700_000_000;
    let missing = svc.create_session(
        &LogInRequest { login_id: String::from("nobody"), password: String::from("x") },
        now,
    );
    assert!(matches!(missing, Err(ApiError::Authentication(_))));
    let wrong = svc.create_session(
        &LogInRequest { login_id: String::from("u1"), password: String::from("wrong") },
        now,
    );
    assert!(matches!(wrong, Err(ApiError::Authentication(_))));
}

#[test]
fn refresh_with_wrong_secret_fails_and_session_survives() {
    let (mut svc, _) = build_service(vec![admin_role()]);
    let now: i64 = 1_700_000_000;
    let login = svc
        .create_session(
            &LogInRequest { login_id: String::from("u1"), password: String::from("hunter2") },
            now,
        )
        .expect("login");
    let bad = svc.refresh_token(
        &RefreshRequest {
            session_id: login.session_id.clone(),
            session_secret: String::from("not-the-secret"),
        },
        now,
    );
    assert!(matches!(bad, Err(ApiError::Authentication(_))));
    let good = svc.refresh_token(
        &RefreshRequest {
            session_id: login.session_id.clone(),
            session_secret: login.session_secret.clone(),
        },
        now,
    );
    assert!(good.is_ok());
}

#[test]
fn sign_out_twice_fails_second_time() {
    let (mut svc, _) = build_service(vec![admin_role()]);
    let now: i64 = 1_700_000_000;
    let login = svc
        .create_session(
            &LogInRequest { login_id: String::from("u1"), password: String::from("hunter2") },
            now,
        )
        .expect("login");
    let first = svc.sign_out(&login.session_id, now);
    assert!(first.is_ok());
    let second = svc.sign_out(&login.session_id, now);
    assert!(matches!(second, Err(ApiError::Validation(_))));
}

#[test]
fn session_not_active_at_its_expiry_instant() {
    let (mut svc, _) = build_service(vec![admin_role()]);
    let now: i64 = 1_700_000_000;
    let login = svc
        .create_session(
            &LogInRequest { login_id: String::from("u1"), password: String::from("hunter2") },
            now,
        )
        .expect("login");
    let req = RefreshRequest {
        session_id: login.session_id.clone(),
        session_secret: login.session_secret.clone(),
    };
    assert!(svc.refresh_token(&req, now + 3599).is_ok());
    let at_expiry = svc.refresh_token(&req, now + 3600);
    assert!(matches!(at_expiry, Err(ApiError::Authentication(_))));
}

#[test]
fn end_to_end_guarded_routes() {
    let (mut svc, _) = build_service(vec![admin_role()]);
    let now: i64 = 1_700_000_000;
    let login = svc
        .create_session(
            &LogInRequest { login_id: String::from("u1"), password: String::from("hunter2") },
            now,
        )
        .expect("login");
    let guard = filter();
    let header = format!("Bearer {}", login.token);
    assert!(guard.permissioned(&header, "createAward", now).is_ok());
    let forbidden = guard.permissioned(&header, "deleteAward", now);
    assert!(matches!(forbidden, Err(ApiError::Authorization(_))));
    assert!(guard.authenticated(&header, now).is_ok());
    let bare = guard.authenticated(&login.token, now);
    assert!(matches!(bare, Err(ApiError::Authentication(_))));
    svc.sign_out(&login.session_id, now).expect("sign out");
    let after = svc.refresh_token(
        &RefreshRequest {
            session_id: login.session_id.clone(),
            session_secret: login.session_secret.clone(),
        },
        now,
    );
    assert!(matches!(after, Err(ApiError::Authentication(_))));
}

#[test]
fn login_at_current_clock() {
    let (mut svc, _) = build_service(vec![admin_role()]);
    let login = svc
        .create_session_now(&LogInRequest {
            login_id: String::from("u1"),
            password: String::from("hunter2"),
        })
        .expect("login");
    assert_eq!(login.session_secret.len(), 16);
    assert!(login.session_secret.chars().all(|c| c.is_ascii_alphanumeric()));
    assert!(!login.token.is_empty());
}

#[test]
fn guards_reject_a_token_outside_its_window() {
    let (mut svc, _) = build_service(vec![admin_role()]);
    let now: i64 = 1_700_000_000;
    let login = svc
        .create_session(
            &LogInRequest { login_id: String::from("u1"), password: String::from("hunter2") },
            now,
        )
        .expect("login");
    let guard = filter();
    let header = format!("Bearer {}", login.token);
    let expired = guard.authenticated(&header, now + 600);
    assert!(matches!(expired, Err(ApiError::Authentication(_))));
    let expired_perm = guard.permissioned(&header, "createAward", now + 600);
    assert!(matches!(expired_perm, Err(ApiError::Authentication(_))));
    let early = guard.authenticated(&header, now - 1);
    assert!(matches!(early, Err(ApiError::Authentication(_))));
}
