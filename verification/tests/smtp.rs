use oxid_relay::config::SmtpConfig;
use oxid_relay::env::Env;
use oxid_relay::error::CoreError;
use oxid_relay::message::{Address, Mail, NewMail};
use oxid_relay::smtp::SmtpTransport;
use oxid_relay::time::Timestamp;

fn sample_mail() -> Mail {
    Mail::from_new(
        NewMail {
            from: Address::new("relay@example.com".to_string()),
            to: vec![Address {
                email: "ziel@example.com".into(),
                name: Some("Zustellung".into()),
            }],
            subject: "Test".into(),
            body: "Grüße".into(),
            transport: None,
        },
        Timestamp::from_unix(1_700_000_000, 0).expect("time"),
        1,
    )
}

#[test]
fn builds_message_from_mail() {
    let mail = sample_mail();
    assert!(SmtpTransport::build_message(&mail).is_ok());
}

#[test]
fn mailbox_with_display_name_parses() {
    let addr = Address {
        email: "a@b.de".into(),
        name: Some("Name".into()),
    };
    let mailbox = SmtpTransport::mailbox(&addr).expect("mailbox");
    assert_eq!(mailbox.name.as_deref(), Some("Name"));
    assert_eq!(mailbox.email, "a@b.de");
}

#[test]
fn mailbox_plain_address_parses() {
    let addr = Address::new("a@b.de".to_string());
    let mailbox = SmtpTransport::mailbox(&addr).expect("mailbox");
    assert_eq!(mailbox.name, None);
    assert_eq!(mailbox.email, "a@b.de");
}

#[test]
fn mailbox_rejects_garbage() {
    let addr = Address::new("not an address".to_string());
    assert!(matches!(
        SmtpTransport::mailbox(&addr),
        Err(CoreError::InvalidMail(_))
    ));
}

#[test]
fn build_message_rejects_invalid_recipient() {
    let mut mail = sample_mail();
    mail.to = vec![Address::new("kein-at-zeichen".to_string())];
    assert!(matches!(
        SmtpTransport::build_message(&mail),
        Err(CoreError::InvalidMail(_))
    ));
}

#[test]
fn message_carries_envelope_subject_and_body() {
    let mut mail = sample_mail();
    mail.body = "Hello".to_string();
    mail.to.push(Address::new("second@example.com".to_string()));
    let message = SmtpTransport::build_message(&mail).expect("message");
    assert_eq!(message.from.as_deref(), Some("relay@example.com"));
    assert_eq!(message.to, vec!["ziel@example.com", "second@example.com"]);
    let text = String::from_utf8(message.bytes).expect("utf-8");
    assert!(text.contains("Subject: Test\r\n"));
    assert!(text.contains("From: relay@example.com\r\n"));
    assert!(text.contains("Zustellung <ziel@example.com>"));
    assert!(text.contains("Date: "));
    assert!(text.ends_with("\r\n\r\nHello"));
}

#[test]
fn message_needs_a_recipient_and_a_sender() {
    let mut mail = sample_mail();
    mail.to = vec![];
    assert!(matches!(
        SmtpTransport::build_message(&mail),
        Err(CoreError::InvalidMail(_))
    ));
    let mut mail = sample_mail();
    mail.from.email = "nobody".to_string();
    assert!(matches!(
        SmtpTransport::build_message(&mail),
        Err(CoreError::InvalidMail(_))
    ));
}

#[test]
fn transport_takes_its_login_from_the_configuration() {
    let config = SmtpConfig {
        host: "smtp.example.com".to_string(),
        port: 587,
        username: "relay".to_string(),
        password_env: "MAIL_PASSWORD".to_string(),
    };
    let err = SmtpTransport::new(&config, &Env::new()).expect_err("unset");
    assert_eq!(
        err.message(),
        "transport error: environment variable MAIL_PASSWORD is not set"
    );
    let mut env = Env::new();
    env.vars.insert("MAIL_PASSWORD".to_string(), "pw".to_string());
    let transport = SmtpTransport::new(&config, &env).expect("set");
    assert_eq!(transport.name, "smtp");
    assert_eq!(transport.host, "smtp.example.com");
    assert_eq!(transport.port, 587);
    assert_eq!(transport.username, "relay");
    assert_eq!(transport.password, "pw");
}

#[test]
fn display_name_stays_on_one_line() {
    for name in ["a\r\nb", "a\nb", "\"a\\\rb\""] {
        let addr = Address { email: "a@b.de".into(), name: Some(name.into()) };
        match SmtpTransport::mailbox(&addr) {
            Ok(mailbox) => assert!(!mailbox.name.unwrap_or_default().contains(['\r', '\n'])),
            Err(err) => assert!(matches!(err, CoreError::InvalidMail(_))),
        }
    }
}
