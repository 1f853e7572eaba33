use oxid_relay::config::{
    Config, SenderSubject, ServiceAuth, SmtpConfig, SmtpIngressConfig, SubjectConfig,
};
use oxid_relay::env::Env;
use oxid_relay::error::ConfigError;
use oxid_relay::table::TextMap;

fn env(vars: &[(&str, &str)]) -> Env {
    let mut env = Env::new();
    for (key, value) in vars {
        env.vars.insert(key.to_string(), value.to_string());
    }
    env
}

fn settings(entries: &[(&str, &str)]) -> TextMap<String> {
    let mut map = TextMap::new();
    for (key, value) in entries {
        map.insert(key.to_string(), value.to_string());
    }
    map
}

fn valid() -> Config {
    let config = Config::default();
    assert!(config.validate().is_ok());
    config
}

fn invalid_text(config: &Config) -> String {
    match config.validate() {
        Err(ConfigError::Invalid(text)) => text,
        other => panic!("expected an invalid configuration, got {other:?}"),
    }
}

#[test]
fn empty_config_uses_defaults() {
    let config = valid();
    assert_eq!(config.queue.database, "queue.db");
    assert_eq!(config.logging.level, "info");
    assert_eq!(config.subject.format, "[Abs: %name%] %original%");
    assert!(config.mail.smtp.is_none());
    assert!(config.security.ip_whitelist.is_empty());
}

#[test]
fn format_for_uses_override_then_falls_back() {
    let mut config = Config::default();
    config.subject.format = "[Abs: %name%] %original%".to_string();
    config.subject.senders.insert(
        "special".to_string(),
        SenderSubject { format: "<%name%> %original%".to_string() },
    );
    assert!(config.validate().is_ok());
    assert_eq!(config.subject.format_for("special"), "<%name%> %original%");
    assert_eq!(config.subject.format_for("unknown"), "[Abs: %name%] %original%");
}

#[test]
fn rejects_unknown_log_level() {
    let mut config = Config::default();
    config.logging.level = "verbose".to_string();
    assert!(matches!(config.validate(), Err(ConfigError::Invalid(_))));
    assert_eq!(
        invalid_text(&config),
        "unknown logging.level 'verbose', expected one of [\"trace\", \"debug\", \"info\", \
         \"warn\", \"error\"]"
    );
}

#[test]
fn rejects_subject_format_without_original() {
    let mut config = Config::default();
    config.subject.format = "[Abs: %name%]".to_string();
    assert!(matches!(config.validate(), Err(ConfigError::Invalid(_))));
    assert_eq!(invalid_text(&config), "subject.format must contain %original%");
}

#[test]
fn rejects_zero_smtp_port() {
    let mut config = Config::default();
    config.mail.smtp = Some(SmtpConfig {
        host: "smtp.example.com".to_string(),
        port: 0,
        username: "u".to_string(),
        password_env: "P".to_string(),
    });
    assert!(matches!(config.validate(), Err(ConfigError::Invalid(_))));
    assert_eq!(invalid_text(&config), "mail.smtp.port must be non-zero");
}

#[test]
fn plugin_settings_passthrough_and_env_resolution() {
    let mut config = Config::default();
    config.plugins.insert(
        "graph".to_string(),
        settings(&[
            ("tenant_id", "tenant-123"),
            ("client_secret_env", "OXID_TEST_GRAPH_SECRET"),
        ]),
    );
    assert!(config.validate().is_ok());
    let env = env(&[("OXID_TEST_GRAPH_SECRET", "s3cr3t")]);
    let settings = config.plugin_settings("graph", &env).expect("settings");
    assert_eq!(settings.get("tenant_id").map(String::as_str), Some("tenant-123"));
    assert_eq!(settings.get("client_secret").map(String::as_str), Some("s3cr3t"));
    assert!(!settings.contains_key("client_secret_env"));
    assert_eq!(settings.len(), 2);
}

#[test]
fn subject_render_substitutes_placeholders() {
    let config = valid();
    assert_eq!(
        config.subject.render("Server01", "Status Okay"),
        "[Abs: Server01] Status Okay"
    );
}

#[test]
fn authenticate_self_register_accepts_any() {
    let mut config = valid();
    config.auth.self_register.enabled = true;
    assert_eq!(
        config
            .auth
            .authenticate("monitoring", "whatever", &Env::new())
            .expect("auth"),
        Some("monitoring".to_string())
    );
}

fn backup_service() -> Config {
    let mut config = valid();
    config.auth.services.insert(
        "backup-host".to_string(),
        ServiceAuth {
            username: "backup".to_string(),
            password_env: "OXID_TEST_BACKUP_PW".to_string(),
        },
    );
    config
}

#[test]
fn authenticate_service_matches_name_and_password() {
    let config = backup_service();
    let env = env(&[("OXID_TEST_BACKUP_PW", "geheim")]);
    assert_eq!(
        config.auth.authenticate("backup", "geheim", &env).expect("auth"),
        Some("backup-host".to_string())
    );
    assert_eq!(config.auth.authenticate("backup", "falsch", &env).expect("auth"), None);
    assert_eq!(config.auth.authenticate("fremd", "x", &env).expect("auth"), None);
}

#[test]
fn ingress_smtp_defaults_when_section_present() {
    let smtp = SmtpIngressConfig::default();
    assert_eq!(smtp.bind, "127.0.0.1:2525");
    assert_eq!(smtp.hostname, "oxid-relay");
}

#[test]
fn plugin_settings_unknown_plugin_is_empty() {
    let config = valid();
    assert_eq!(config.plugin_settings("nope", &Env::new()).expect("settings").len(), 0);
}

#[test]
fn plugin_settings_missing_env_reports_error() {
    let mut config = valid();
    config.plugins.insert(
        "graph".to_string(),
        settings(&[("client_secret_env", "OXID_TEST_DEFINITELY_UNSET")]),
    );
    assert!(matches!(
        config.plugin_settings("graph", &Env::new()),
        Err(ConfigError::MissingEnv(_))
    ));
}

#[test]
fn password_missing_env_reports_error() {
    let smtp = SmtpConfig {
        host: "h".into(),
        port: 587,
        username: "u".into(),
        password_env: "OXID_RELAY_DEFINITELY_UNSET_VAR".into(),
    };
    let err = smtp.password(&Env::new()).expect_err("unset");
    assert!(matches!(err, ConfigError::MissingEnv(_)));
    assert_eq!(
        err.message(),
        "environment variable OXID_RELAY_DEFINITELY_UNSET_VAR is not set"
    );
}

#[test]
fn password_comes_from_the_named_variable() {
    let smtp = SmtpConfig {
        host: "h".into(),
        port: 587,
        username: "u".into(),
        password_env: "MAIL_PASSWORD".into(),
    };
    let env = env(&[("MAIL_PASSWORD", "pw"), ("OTHER", "x")]);
    assert_eq!(smtp.password(&env).expect("set"), "pw");
}

#[test]
fn checks_come_in_order() {
    let mut config = Config::default();
    config.queue.database = " \t".to_string();
    config.logging.level = "INFO".to_string();
    assert_eq!(invalid_text(&config), "queue.database is empty");
    config.queue.database = "queue.db".to_string();
    assert!(invalid_text(&config).starts_with("unknown logging.level 'INFO'"));
    config.logging.level = "trace".to_string();
    config.mail.smtp = Some(SmtpConfig {
        host: "  ".to_string(),
        port: 0,
        username: "u".to_string(),
        password_env: "P".to_string(),
    });
    assert_eq!(invalid_text(&config), "mail.smtp.host is empty");
    config.mail.smtp = None;
    config
        .subject
        .senders
        .insert("b".to_string(), SenderSubject { format: "%name%".to_string() });
    config
        .subject
        .senders
        .insert("a".to_string(), SenderSubject { format: "%ORIGINAL%".to_string() });
    assert_eq!(
        invalid_text(&config),
        "subject.senders.\"a\".format must contain %original%"
    );
    let text = config.validate().expect_err("invalid").message();
    assert_eq!(
        text,
        "invalid config: subject.senders.\"a\".format must contain %original%"
    );
}

#[test]
fn render_fills_the_name_before_the_original() {
    let subject = SubjectConfig {
        format: "%original% %name% %name%".to_string(),
        senders: TextMap::new(),
    };
    assert_eq!(subject.render("a", "b"), "b a a");
    assert_eq!(subject.render("%original%", "b"), "b b b");
    assert_eq!(subject.render("a", "%name%"), "%name% a a");
}

#[test]
fn overlapping_placeholders_lose_the_original() {
    let subject = SubjectConfig {
        format: "%name%original%".to_string(),
        senders: TextMap::new(),
    };
    assert_eq!(subject.render("a", "b"), "aoriginal%");
}

#[test]
fn secret_wins_over_plain_setting() {
    let mut config = Config::default();
    config.plugins.insert(
        "ntfy".to_string(),
        settings(&[("token", "plain"), ("token_env", "NTFY_TOKEN"), ("_env", "EMPTY"), ("a_env_env", "A")]),
    );
    let env = env(&[("NTFY_TOKEN", "secret"), ("EMPTY", "e"), ("A", "nested")]);
    let resolved = config.plugin_settings("ntfy", &env).expect("settings");
    assert_eq!(resolved.get("token").map(String::as_str), Some("secret"));
    assert_eq!(resolved.get("").map(String::as_str), Some("e"));
    assert_eq!(resolved.get("a_env").map(String::as_str), Some("nested"));
    assert_eq!(resolved.len(), 3);
}

#[test]
fn service_decides_before_self_registration() {
    let mut config = backup_service();
    config.auth.self_register.enabled = true;
    let env = env(&[("OXID_TEST_BACKUP_PW", "geheim")]);
    assert_eq!(config.auth.authenticate("backup", "falsch", &env).expect("auth"), None);
    assert_eq!(
        config.auth.authenticate("fremd", "x", &env).expect("auth"),
        Some("fremd".to_string())
    );
    let err = config
        .auth
        .authenticate("backup", "geheim", &Env::new())
        .expect_err("password is not set");
    assert!(matches!(err, ConfigError::MissingEnv(var) if var == "OXID_TEST_BACKUP_PW"));
}

#[test]
fn config_errors_have_their_texts() {
    let read = ConfigError::Read { path: "c.toml".to_string(), source: "gone".to_string() };
    assert_eq!(read.message(), "could not read config file c.toml: gone");
    assert_eq!(ConfigError::Parse("line 1".to_string()).message(), "could not parse config: line 1");
}

#[test]
fn map_is_walked_in_key_order() {
    let map = settings(&[("b", "1"), ("a", "2"), ("ab", "3"), ("b", "4"), ("\u{e4}", "5")]);
    let keys: Vec<&str> = (0..map.len()).map(|i| map.key_at(i).as_str()).collect();
    assert_eq!(keys, vec!["a", "ab", "b", "\u{e4}"]);
    assert_eq!(map.get("b").map(String::as_str), Some("4"));
    assert!(map.get("c").is_none());
    let copy = map.clone();
    assert_eq!(copy.get("ab").map(String::as_str), Some("3"));
}
