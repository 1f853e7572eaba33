use oxid_relay::error::{CoreError, IngressError, PluginError};
use oxid_relay::message::{Address, Mail, MailStatus, NewMail};
use oxid_relay::time::Timestamp;

fn sample(to: Vec<Address>, subject: &str) -> NewMail {
    NewMail {
        from: Address::new("relay@example.com".to_string()),
        to,
        subject: subject.into(),
        body: "Hallo Welt".into(),
        transport: None,
    }
}

#[test]
fn validate_accepts_complete_mail() {
    let mail = sample(vec![Address::new("ziel@example.com".to_string())], "Test");
    assert!(mail.validate().is_ok());
}

#[test]
fn validate_rejects_missing_recipients() {
    let mail = sample(vec![], "Test");
    assert!(matches!(mail.validate(), Err(CoreError::InvalidMail(_))));
}

#[test]
fn validate_rejects_empty_subject() {
    let mail = sample(vec![Address::new("ziel@example.com".to_string())], "  ");
    assert!(matches!(mail.validate(), Err(CoreError::InvalidMail(_))));
}

#[test]
fn validate_reports_the_first_problem() {
    let mut mail = sample(vec![], "\u{3000}\n");
    mail.from.email = "\t".to_string();
    assert_eq!(
        mail.validate().expect_err("sender").message(),
        "invalid mail: sender address is empty"
    );
    mail.from.email = "a@b.de".to_string();
    assert_eq!(
        mail.validate().expect_err("recipients").message(),
        "invalid mail: no recipients given"
    );
    mail.to.push(Address::new("c@d.de".to_string()));
    assert_eq!(
        mail.validate().expect_err("subject").message(),
        "invalid mail: subject is empty"
    );
}

#[test]
fn new_mail_is_pending_and_due_at_once() {
    let now = Timestamp::from_unix(1_700_000_000, 5).expect("time");
    let mut new = sample(vec![Address::new("ziel@example.com".to_string())], "Test");
    new.transport = Some("teams".to_string());
    let mail = Mail::from_new(new.clone(), now, 7);
    assert_eq!(mail.id, 7);
    assert_eq!(mail.status, MailStatus::Pending);
    assert_eq!(mail.attempts, 0);
    assert_eq!(mail.last_error, None);
    assert_eq!(mail.created_at, now);
    assert_eq!(mail.updated_at, now);
    assert_eq!(mail.next_attempt_at, now);
    assert_eq!(mail.transport.as_deref(), Some("teams"));
    assert_eq!(mail.from, new.from);
    assert_eq!(mail.to, new.to);
    assert_eq!(mail.subject, "Test");
    assert_eq!(mail.body, "Hallo Welt");
}

#[test]
fn errors_have_their_texts() {
    assert_eq!(CoreError::NotFound("x".to_string()).message(), "mail not found: x");
    assert_eq!(CoreError::Transport("x".to_string()).message(), "transport error: x");
    assert_eq!(CoreError::Queue("x".to_string()).message(), "queue error: x");
    assert_eq!(IngressError::Disabled.message(), "smtp ingress is not configured");
    assert_eq!(IngressError::Tls("x".to_string()).message(), "tls setup failed: x");
    assert_eq!(IngressError::Bind("x".to_string()).message(), "invalid bind address: x");
    assert_eq!(IngressError::Serve("x".to_string()).message(), "smtp server error: x");
    let io = PluginError::Io { path: "p".to_string(), source: "s".to_string() };
    assert_eq!(io.message(), "could not read p: s");
    assert_eq!(PluginError::Manifest("x".to_string()).message(), "invalid manifest: x");
    assert_eq!(PluginError::Compile("x".to_string()).message(), "script compile error: x");
    assert_eq!(PluginError::Invalid("x".to_string()).message(), "invalid plugin: x");
}
