use ausawards::codec::{parse_claims, serialize_claims};
use ausawards::domain::{JwtConfig, UserAuth};
use ausawards::errors::ApiError;
use ausawards::model::{Role, User, UserSession};
use ausawards::token::{collect_permissions, TokenServiceImpl};

fn sample_user() -> User {
    User {
        id: String::from("user-1"),
        user_type: String::from("ADMIN"),
        company_id: None,
        login_id: String::from("u1"),
        password: String::from("irrelevant-digest"),
        role_ids: vec![String::from("admin")],
    }
}

fn sample_session() -> UserSession {
    UserSession {
        id: String::from("sess-1"),
        user_id: String::from("user-1"),
        session_type: String::from("SESSION_TYPE_USER"),
        session_secret: String::from("digest"),
        created_at: 1_700_000_000,
        expire_at: 1_700_003_600,
        expired: None,
    }
}

fn codec_service() -> TokenServiceImpl {
    TokenServiceImpl::new(JwtConfig { secret: String::from("c2VjcmV0"), exp_sec: 600 })
}

#[test]
fn issue_parse_roundtrip_within_window() {
    let svc = codec_service();
    let roles = vec![
        Role {
            id: String::from("admin"),
            name: String::from("Administrator"),
            permissions: vec![String::from("createAward"), String::from("viewAward")],
        },
        Role {
            id: String::from("viewer"),
            name: String::from("Viewer"),
            permissions: vec![String::from("viewAward")],
        },
    ];
    let now: i64 = 1_700_000_000;
    let token = svc
        .create_token_at(&sample_user(), &sample_session(), &roles, now)
        .expect("issue");
    let claims = svc.parse_token_at(&token, now + 599).expect("parse");
    assert_eq!(claims.sub, "user-1");
    assert_eq!(claims.login_id, "u1");
    assert_eq!(claims.session_id, "sess-1");
    assert_eq!(claims.iat, now);
    assert_eq!(claims.exp, now + 600);
    let mut sorted = claims.permissions.clone();
    sorted.sort();
    assert_eq!(sorted, vec![String::from("createAward"), String::from("viewAward")]);
}

#[test]
fn token_rejected_at_expiry_instant() {
    let svc = codec_service();
    let now: i64 = 1_700_000_000;
    let token = svc
        .create_token_at(&sample_user(), &sample_session(), &Vec::new(), now)
        .expect("issue");
    assert!(svc.parse_token_at(&token, now + 599).is_ok());
    let at_exp = svc.parse_token_at(&token, now + 600);
    assert!(matches!(at_exp, Err(ApiError::Authentication(_))));
    let before_iat = svc.parse_token_at(&token, now - 1);
    assert!(matches!(before_iat, Err(ApiError::Authentication(_))));
}

#[test]
fn tampered_and_foreign_tokens_are_rejected() {
    let svc = codec_service();
    let now: i64 = 1_700_000_000;
    let token = svc
        .create_token_at(&sample_user(), &sample_session(), &Vec::new(), now)
        .expect("issue");
    let mut tampered = token.clone();
    tampered.push('x');
    assert!(matches!(svc.parse_token_at(&tampered, now), Err(ApiError::Authentication(_))));
    let other = TokenServiceImpl::new(JwtConfig {
        secret: String::from("b3RoZXI="),
        exp_sec: 600,
    });
    let foreign = other
        .create_token_at(&sample_user(), &sample_session(), &Vec::new(), now)
        .expect("issue");
    assert!(matches!(svc.parse_token_at(&foreign, now), Err(ApiError::Authentication(_))));
    assert!(matches!(svc.parse_token_at("garbage", now), Err(ApiError::Authentication(_))));
}

#[test]
fn bad_base64_secret_is_an_internal_error() {
    let svc = TokenServiceImpl::new(JwtConfig {
        secret: String::from("not base64 !!"),
        exp_sec: 600,
    });
    let now: i64 = 1_700_000_000;
    let issued = svc.create_token_at(&sample_user(), &sample_session(), &Vec::new(), now);
    assert!(matches!(issued, Err(ApiError::Server(_))));
    let parsed = svc.parse_token_at("whatever", now);
    assert!(matches!(parsed, Err(ApiError::Server(_))));
}

#[test]
fn key_cache_stays_consistent_across_repeated_use() {
    let svc = codec_service();
    let now: i64 = 1_700_000_000;
    let first = svc
        .create_token_at(&sample_user(), &sample_session(), &Vec::new(), now)
        .expect("issue");
    for _ in 0..5 {
        let again = svc
            .create_token_at(&sample_user(), &sample_session(), &Vec::new(), now)
            .expect("issue");
        assert_eq!(again, first);
        assert!(svc.parse_token_at(&again, now).is_ok());
    }
}

#[test]
fn claims_bytes_roundtrip_with_awkward_strings() {
    let claims = UserAuth {
        sub: String::from("id \"quoted\" and back\\slash"),
        login_id: String::from("line\nbreak and tab\t"),
        session_id: String::from("unicode \u{00e9}\u{4e16}"),
        permissions: vec![String::from("a,b"), String::new(), String::from("[]{}:\"")],
        iat: 0,
        exp: 9_223_372_036_854_775_807,
    };
    let bytes = serialize_claims(&claims);
    let back = parse_claims(&bytes).expect("roundtrip");
    assert_eq!(back.sub, claims.sub);
    assert_eq!(back.login_id, claims.login_id);
    assert_eq!(back.session_id, claims.session_id);
    assert_eq!(back.permissions, claims.permissions);
    assert_eq!(back.iat, claims.iat);
    assert_eq!(back.exp, claims.exp);
}

#[test]
fn claims_parser_accepts_only_the_exact_shape() {
    let claims = UserAuth {
        sub: String::from("s"),
        login_id: String::from("l"),
        session_id: String::from("x"),
        permissions: vec![],
        iat: 1,
        exp: 2,
    };
    let good = serialize_claims(&claims);
    assert_eq!(
        String::from_utf8(good.clone()).unwrap(),
        "{\"sub\":\"s\",\"loginId\":\"l\",\"sessionId\":\"x\",\"permissions\":[],\"iat\":1,\"exp\":2}",
    );
    assert!(parse_claims(&good).is_some());
    let mut trailing = good.clone();
    trailing.push(b' ');
    assert!(parse_claims(&trailing).is_none());
    assert!(parse_claims(b"{}").is_none());
    assert!(parse_claims(
        b"{\"sub\":\"s\",\"loginId\":\"l\",\"sessionId\":\"x\",\"permissions\":[],\"iat\":01,\"exp\":2}",
    )
    .is_none());
}

#[test]
fn permissions_deduplicate_keeping_first_occurrence() {
    let roles = vec![
        Role {
            id: String::from("a"),
            name: String::from("A"),
            permissions: vec![String::from("p1"), String::from("p2")],
        },
        Role {
            id: String::from("b"),
            name: String::from("B"),
            permissions: vec![String::from("p2"), String::from("p3")],
        },
    ];
    let flat = collect_permissions(&roles);
    assert_eq!(flat, vec![String::from("p1"), String::from("p2"), String::from("p3")]);
}
