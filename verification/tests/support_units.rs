use ausawards::cli::{ArgsParser, CliCommand, CommandNotFound, FlagType, HealthCheckCommand,
    SelectCommand};
use ausawards::config::{ConfigService, FileConfigService};
use ausawards::converters::{AwardConverter, AwardConverterImpl};
use ausawards::domain::{AppConfig, JwtConfig, MongoConfig, SessionConfig};
use ausawards::dto;
use ausawards::errors::{handler, ApiError, AuthenticationError, AuthorizationError,
    ServerError, ValidationError};
use ausawards::hash::HashServiceImpl;
use ausawards::model::{User, UserSession, WithId};
use ausawards::repository::{RoleRepositoryImpl, UserSessionRepositoryImpl,
    UsersRepositoryImpl};
use ausawards::users::{UserConverter, UserConverterImpl};

#[test]
fn error_handler_maps_each_kind_to_its_status_and_code() {
    let cases = vec![
        (ApiError::NotFound, 404, "ERR1003"),
        (ApiError::Authentication(AuthenticationError::new()), 401, "ERR1001"),
        (ApiError::Authorization(AuthorizationError::new()), 403, "ERR1002"),
        (ApiError::Validation(ValidationError::new()), 400, "ERR1004"),
        (ApiError::Server(ServerError::new()), 500, "ERR1000"),
    ];
    for (err, status, code) in cases {
        let reply = handler(&err);
        assert_eq!(reply.status, status);
        assert_eq!(reply.body.code, code);
    }
}

#[test]
fn hash_service_verifies_only_the_hashed_password() {
    let hash = HashServiceImpl::new();
    let digest = hash.hash_pw("swordfish").expect("hash");
    assert!(hash.verify_pw("swordfish", &digest));
    assert!(!hash.verify_pw("swordfish2", &digest));
}

#[test]
fn users_repository_upserts_by_identifier() {
    let mut repo = UsersRepositoryImpl::new();
    let mut u = User {
        id: String::from("id-1"),
        user_type: String::from("ADMIN"),
        company_id: Some(String::from("co")),
        login_id: String::from("first"),
        password: String::from("d1"),
        role_ids: vec![],
    };
    repo.save(&u);
    u.login_id = String::from("second");
    repo.save(&u);
    let found = repo.find_by_id(&String::from("id-1")).expect("present");
    assert_eq!(found.login_id, "second");
    assert!(repo.find_by_login_id(&String::from("first")).is_none());
    assert!(repo.find_by_login_id(&String::from("second")).is_some());
    assert!(repo.find_by_id(&String::from("id-2")).is_none());
}

#[test]
fn session_repository_filters_out_inactive_records() {
    let mut repo = UserSessionRepositoryImpl::new();
    let sess = UserSession {
        id: String::from("s1"),
        user_id: String::from("u"),
        session_type: String::from("SESSION_TYPE_USER"),
        session_secret: String::from("d"),
        created_at: 100,
        expire_at: 200,
        expired: None,
    };
    repo.save(&sess);
    assert!(repo.find_active_by_id(&String::from("s1"), 199).is_some());
    assert!(repo.find_active_by_id(&String::from("s1"), 200).is_none());
    assert!(repo.find_active_by_id(&String::from("other"), 150).is_none());
    assert_eq!(sess.get_id(), "s1");
}

#[test]
fn role_repository_returns_matching_roles_in_store_order() {
    let repo = RoleRepositoryImpl::new(vec![
        ausawards::model::Role {
            id: String::from("a"),
            name: String::from("A"),
            permissions: vec![],
        },
        ausawards::model::Role {
            id: String::from("b"),
            name: String::from("B"),
            permissions: vec![],
        },
    ]);
    let found = repo.find_by_ids(&vec![String::from("b"), String::from("a")]);
    let names: Vec<&str> = found.iter().map(|r| r.id.as_str()).collect();
    assert_eq!(names, vec!["a", "b"]);
    assert!(repo.find_by_ids(&vec![String::from("c")]).is_empty());
}

#[test]
fn args_parser_collects_flags_values_and_commands() {
    let mut parser = ArgsParser::new();
    parser.arg_str("config");
    parser.arg_str_default("mode", "fast");
    parser.parse(vec![
        String::from("serve"),
        String::from("--config"),
        String::from("/tmp/c.yaml"),
        String::from("--verbose"),
        String::from("extra"),
    ]);
    assert_eq!(parser.get_flag("config"), Some(String::from("/tmp/c.yaml")));
    assert_eq!(parser.get_flag("mode"), Some(String::from("fast")));
    assert!(parser.is_flag("verbose"));
    assert!(parser.get_flag("verbose").is_none());
    assert!(!parser.is_flag("missing"));
    assert_eq!(parser.serve_command(), Some(String::from("serve")));
    assert_eq!(parser.serve_command(), Some(String::from("extra")));
    assert_eq!(parser.serve_command(), None);
}

#[test]
fn args_parser_registered_flag_without_value_is_not_set() {
    let mut parser = ArgsParser::new();
    parser.arg_str("config");
    parser.parse(vec![String::from("--config")]);
    assert!(!parser.is_flag("config"));
    assert!(parser.get_flag("config").is_none());
}

#[test]
fn select_command_falls_back_to_not_found() {
    let mut select = SelectCommand::new();
    select.command("healthcheck", CliCommand::HealthCheck(HealthCheckCommand::new()));
    match select.select("healthcheck") {
        CliCommand::HealthCheck(_) => {},
        CliCommand::NotFound(_) => panic!("registered command not selected"),
    }
    match select.select("healthcheck") {
        CliCommand::NotFound(c) => {
            assert_eq!(c.message(), "Could not recognise command 'healthcheck'");
        },
        CliCommand::HealthCheck(_) => panic!("selection should remove the binding"),
    }
    match select.select("bogus") {
        CliCommand::NotFound(c) => {
            assert_eq!(c.message(), "Could not recognise command 'bogus'");
        },
        CliCommand::HealthCheck(_) => panic!("unexpected command"),
    }
    let direct = CommandNotFound::new("zap");
    assert_eq!(direct.message(), "Could not recognise command 'zap'");
}

#[test]
fn select_command_rebinding_replaces_the_earlier_command() {
    let mut select = SelectCommand::new();
    select.command("probe", CliCommand::NotFound(CommandNotFound::new("placeholder")));
    select.command("probe", CliCommand::HealthCheck(HealthCheckCommand::new()));
    match select.select("probe") {
        CliCommand::HealthCheck(_) => {},
        CliCommand::NotFound(_) => panic!("rebinding did not replace the command"),
    }
}

#[test]
fn health_check_report_lines() {
    let cmd = HealthCheckCommand::new();
    let name = String::from("ausawards");
    assert_eq!(cmd.report(Some(&name)), "Successfully connected to ausawards");
    assert_eq!(cmd.report(None), "Could not connect to server");
    assert_eq!(cmd.malformed_url_message("::bad::"), "Malformed URL: ::bad::");
}

#[test]
fn flag_type_variants_exist() {
    let b = FlagType::Boolean;
    let v = FlagType::Value(Some(String::from("x")));
    assert!(matches!(b, FlagType::Boolean));
    assert!(matches!(v, FlagType::Value(Some(_))));
}

#[test]
fn file_config_service_hands_back_stored_values() {
    let mut svc = FileConfigService::new("resources/config.json");
    assert_eq!(svc.file_name(), "resources/config.json");
    svc.set_config(AppConfig {
        app_name: String::from("ausawards"),
        mongo: MongoConfig { uri: String::from("u"), database: String::from("d") },
        session: SessionConfig { secret_length: 8, lifetime_sec: 60 },
        jwt: JwtConfig { secret: String::from("c2VjcmV0"), exp_sec: 30 },
    });
    let cfg = svc.get_config();
    assert_eq!(cfg.app_name, "ausawards");
    assert_eq!(cfg.session.secret_length, 8);
    assert_eq!(cfg.jwt.exp_sec, 30);
}

#[test]
fn converters_keep_every_field() {
    let uc = UserConverterImpl::new();
    let dto_user = uc.to_dto(&User {
        id: String::from("i"),
        user_type: String::from("ADMIN"),
        company_id: None,
        login_id: String::from("l"),
        password: String::from("secret-digest"),
        role_ids: vec![String::from("r")],
    });
    assert_eq!(dto_user.id, "i");
    assert_eq!(dto_user.login_id, "l");
    assert_eq!(dto_user.role_ids, vec![String::from("r")]);
    let ac = AwardConverterImpl::new();
    let alt = ac.alt_id_to_model(dto::AwardAlternateId {
        id: String::from("x"),
        id_type: String::from("ORIGINAL_PRINT_ID"),
    });
    assert_eq!(alt.id, "x");
    assert_eq!(alt.id_type, "ORIGINAL_PRINT_ID");
    let cls = ac.classification_to_model(dto::AwardClassification {
        id: String::from("c"),
        title: String::from("t"),
        active: true,
        note: String::from("n"),
    });
    assert_eq!(cls.id, "c");
    assert!(cls.active);
    assert_eq!(cls.note, "n");
}
