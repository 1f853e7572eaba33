use std::sync::Arc;

use oxid_relay::config::{Config, SenderSubject, ServiceAuth, SmtpIngressConfig};
use oxid_relay::env::Env;
use oxid_relay::error::{CoreError, IngressError};
use oxid_relay::ingress::{context, smtp_ingress, stored, strip_brackets, RelayHandler, Reply};
use oxid_relay::message::MailStatus;
use oxid_relay::queue::MailQueue;
use oxid_relay::routing::{RouteRule, RouteTarget};
use oxid_relay::whitelist::{is_allowed, parse_whitelist, IpAddress, IpNetwork};

fn ip(raw: &str) -> IpAddress {
    IpAddress::parse(raw).expect("address")
}

fn test_config() -> Config {
    let mut config = Config::default();
    config.ingress.smtp = Some(SmtpIngressConfig {
        hostname: "oxid-test".to_string(),
        ..SmtpIngressConfig::default()
    });
    config.security.ip_whitelist = vec!["127.0.0.1".to_string(), "::1".to_string()];
    config.auth.anonymous.enabled = true;
    assert!(config.validate().is_ok());
    config
}

fn session(config: Config) -> RelayHandler {
    RelayHandler::new(Arc::new(context(config)))
}

/// Submits one message and returns the handler at the end of its data.
fn submit(config: Config, from: &str, to: &[&str], data: &[u8]) -> RelayHandler {
    let mut handler = session(config);
    assert_eq!(handler.helo(ip("127.0.0.1")).code(), 250);
    assert_eq!(handler.mail(ip("127.0.0.1"), from).code(), 250);
    for path in to {
        assert_eq!(handler.rcpt(path).code(), 250);
    }
    assert_eq!(handler.data_start().code(), 250);
    for part in data.chunks(7) {
        handler.data(part);
    }
    handler
}

#[test]
fn accepts_anonymous_mail_and_enqueues() {
    let handler = submit(
        test_config(),
        "<relay@example.com>",
        &["<ziel@example.com>"],
        b"Subject: Status Okay\r\n\r\nKoerper\r\n",
    );
    let mut queue = MailQueue::new();
    let mut mails = handler.data_end().expect("accepted");
    assert_eq!(mails.len(), 1);
    let mail = mails.remove(0);
    let now = mail.created_at;
    let outcome = queue.enqueue(mail).map(|_| ());
    assert_eq!(stored(outcome).code(), 250);

    let due = queue.fetch_due(10, now);
    assert_eq!(due.len(), 1);
    let mail = &due[0];
    assert_eq!(mail.status, MailStatus::Pending);
    assert_eq!(mail.subject, "Status Okay");
    assert_eq!(mail.from.email, "relay@example.com");
    assert_eq!(mail.to.len(), 1);
    assert_eq!(mail.to[0].email, "ziel@example.com");
    assert_eq!(mail.body, "Koerper\r\n");
    assert_eq!((mail.id >> 76) & 0xf, 4);
    assert_eq!((mail.id >> 62) & 0x3, 2);
    assert!(now.unix_secs() > 1_600_000_000);
}

#[test]
fn rejects_non_whitelisted_ip() {
    let mut config = Config::default();
    config.ingress.smtp = Some(SmtpIngressConfig::default());
    config.security.ip_whitelist = vec!["10.0.0.0/8".to_string()];
    let mut handler = session(config);
    let reply = handler.helo(ip("127.0.0.1"));
    assert_eq!(reply.code(), 421);
    assert_eq!(reply.text(), "Service not available");
    assert_eq!(handler.mail(ip("127.0.0.1"), "<a@b.de>").code(), 421);
    assert_eq!(handler.envelope_from, "");
}

#[test]
fn whitelist_parses_ip_and_cidr() {
    let nets = parse_whitelist(&vec!["127.0.0.1".to_string(), "10.0.0.0/8".to_string()]);
    assert_eq!(nets.len(), 2);
    assert!(is_allowed(&nets, ip("127.0.0.1")));
    assert!(is_allowed(&nets, ip("10.1.2.3")));
    assert!(!is_allowed(&nets, ip("192.168.1.1")));
}

#[test]
fn strip_brackets_removes_wrappers() {
    assert_eq!(strip_brackets("<a@b.de>"), "a@b.de");
    assert_eq!(strip_brackets("  a@b.de "), "a@b.de");
}

#[test]
fn brackets_and_spaces_are_removed_in_layers() {
    assert_eq!(strip_brackets(" << a@b.de >> "), "a@b.de");
    assert_eq!(strip_brackets("<>"), "");
    assert_eq!(strip_brackets("a<b>c"), "a<b>c");
    assert_eq!(strip_brackets("\u{a0}<a@b.de>\t"), "a@b.de");
    assert_eq!(strip_brackets("\t< a b >\n"), "a b");
    assert_eq!(strip_brackets(" <  > "), "");
    assert_eq!(strip_brackets("< <a> >"), "<a>");
    assert_eq!(strip_brackets(&strip_brackets(" < a@b.de > ")), "a@b.de");
}

#[test]
fn addresses_are_read_and_compared() {
    assert_eq!(IpAddress::parse("127.0.0.1"), Some(IpAddress::V4(0x7f00_0001)));
    assert_eq!(IpAddress::parse("::1"), Some(IpAddress::V6(1)));
    assert_eq!(IpAddress::parse("10.0.0.0/8"), None);
    assert_eq!(IpAddress::parse("host"), None);
    let net = IpNetwork::new(ip("10.42.202.183"), 12).expect("network");
    assert!(net.contains(ip("10.32.0.0")));
    assert!(net.contains(ip("10.47.255.255")));
    assert!(!net.contains(ip("10.48.0.0")));
    assert!(!net.contains(ip("::a20:0")));
    assert!(IpNetwork::new(ip("10.0.0.0"), 33).is_none());
    assert!(IpNetwork::new(ip("::"), 128).is_some());
    let all = IpNetwork::new(ip("1.2.3.4"), 0).expect("network");
    assert!(all.contains(ip("255.255.255.255")));
    let six = IpNetwork::new(ip("fe80::1"), 10).expect("network");
    assert!(six.contains(ip("febf::ffff")));
    assert!(!six.contains(ip("fec0::")));
}

#[test]
fn empty_whitelist_allows_nothing_and_garbage_is_ignored() {
    assert!(!is_allowed(&parse_whitelist(&vec![]), ip("127.0.0.1")));
    let nets = parse_whitelist(&vec![
        "10.0.0.0/33".to_string(),
        "localhost".to_string(),
        " 127.0.0.1".to_string(),
        "fd00::/8".to_string(),
    ]);
    assert_eq!(nets.len(), 1);
    assert!(is_allowed(&nets, ip("fd12::1")));
    assert!(!is_allowed(&nets, ip("127.0.0.1")));
}

#[test]
fn anonymous_submission_must_be_enabled() {
    let mut config = test_config();
    config.auth.anonymous.enabled = false;
    config.auth.services.insert(
        "backup-host".to_string(),
        ServiceAuth { username: "backup".to_string(), password_env: "PW".to_string() },
    );
    let mut handler = session(config);
    let reply = handler.mail(ip("127.0.0.1"), "<a@b.de>");
    assert_eq!(reply.code(), 530);
    assert_eq!(reply.text(), "Authentication required");

    let mut env = Env::new();
    assert_eq!(handler.auth_login("backup", "geheim", &env).code(), 454);
    env.vars.insert("PW".to_string(), "geheim".to_string());
    assert_eq!(handler.auth_login("backup", "falsch", &env).code(), 535);
    assert_eq!(handler.authenticated_as, None);
    assert_eq!(handler.auth_plain("", "backup", "geheim", &env).code(), 235);
    assert_eq!(handler.authenticated_as.as_deref(), Some("backup-host"));
    assert_eq!(handler.mail(ip("127.0.0.1"), "<a@b.de>").code(), 250);
    handler.rcpt("<c@d.de>");
    handler.data(b"Subject: Status\r\n\r\nx");
    let mails = handler.data_end().expect("accepted");
    assert_eq!(mails[0].subject, "[Abs: backup-host] Status");
}

#[test]
fn anonymous_sender_is_named_by_the_subject() {
    let mut config = test_config();
    config.auth.anonymous.subject_match = Some("^(?P<name>[^:]+):".to_string());
    config.subject.senders.insert(
        "Server 188".to_string(),
        SenderSubject { format: "<%name%> %original%".to_string() },
    );
    let subject = |line: &[u8]| {
        let handler = submit(config.clone(), "<a@b.de>", &["<c@d.de>"], line);
        handler.data_end().expect("accepted").remove(0).subject
    };
    assert_eq!(
        subject(b"Subject: Server 187: disk full\r\n\r\nx"),
        "[Abs: Server 187] Server 187: disk full"
    );
    assert_eq!(
        subject(b"Subject: Server 188: disk full\r\n\r\nx"),
        "<Server 188> Server 188: disk full"
    );
    assert_eq!(subject(b"Subject: disk full\r\n\r\nx"), "disk full");

    let mut broken = config.clone();
    broken.auth.anonymous.subject_match = Some("(".to_string());
    let handler = submit(broken, "<a@b.de>", &["<c@d.de>"], b"Subject: a: b\r\n\r\nx");
    assert_eq!(handler.data_end().expect("accepted")[0].subject, "a: b");
    assert_eq!(handler.sender_name("a: b"), None);
}

#[test]
fn unusable_messages_are_refused() {
    let refused = |from: &str, to: &[&str], data: &[u8]| {
        let reply = submit(test_config(), from, to, data).data_end().expect_err("refused");
        assert_eq!(reply.code(), 554);
        reply.text()
    };
    assert_eq!(
        refused("<a@b.de>", &["<c@d.de>"], b""),
        "rejected: invalid mail: could not parse message"
    );
    assert_eq!(
        refused("<>", &["<c@d.de>"], b"Subject: x\r\n\r\ny"),
        "rejected: invalid mail: sender address is empty"
    );
    assert_eq!(
        refused("<a@b.de>", &[], b"Subject: x\r\n\r\ny"),
        "rejected: invalid mail: no recipients given"
    );
    assert_eq!(
        refused("<a@b.de>", &["<c@d.de>"], b"X-Other: x\r\n\r\ny"),
        "rejected: invalid mail: subject is empty"
    );
}

#[test]
fn message_without_text_keeps_its_bytes() {
    let data = b"Subject: x\r\nContent-Type: application/pdf\r\n\r\n\xffpdf";
    let handler = submit(test_config(), "<a@b.de>", &["<c@d.de>"], data);
    let built = handler.build_mail().expect("built");
    assert_eq!(
        built.body,
        "Subject: x\r\nContent-Type: application/pdf\r\n\r\n\u{fffd}pdf"
    );
}

#[test]
fn encoded_subjects_are_decoded() {
    let data = b"Subject: =?utf-8?q?Gr=C3=BC=C3=9Fe?=\r\n\r\nx";
    let handler = submit(test_config(), "<a@b.de>", &["<c@d.de>"], data);
    assert_eq!(handler.build_mail().expect("built").subject, "Gr\u{fc}\u{df}e");
}

#[test]
fn assembling_labels_and_checks() {
    let handler = submit(test_config(), "<a@b.de>", &["<c@d.de>", "e@f.de"], b"");
    let mail = handler
        .assemble("s".to_string(), "b".to_string(), Some("n".to_string()))
        .expect("valid");
    assert_eq!(mail.subject, "[Abs: n] s");
    assert_eq!(mail.body, "b");
    assert_eq!(mail.to.len(), 2);
    assert_eq!(mail.to[1].email, "e@f.de");
    assert_eq!(mail.transport, None);
    let err = handler.assemble(" ".to_string(), "b".to_string(), None).expect_err("invalid");
    assert_eq!(err.message(), "invalid mail: subject is empty");
}

fn rule(transport: Option<&str>, recipients: &[&str], targets: Vec<RouteTarget>) -> RouteRule {
    RouteRule {
        transport: transport.map(|t| t.to_string()),
        recipients: recipients.iter().map(|r| r.to_string()).collect(),
        targets,
    }
}

fn target(transport: &str, recipients: &[&str]) -> RouteTarget {
    RouteTarget {
        transport: transport.to_string(),
        recipients: recipients.iter().map(|r| r.to_string()).collect(),
    }
}

fn routed_config() -> Config {
    let mut config = test_config();
    config.routing.default = Some(rule(Some("graph"), &[], vec![]));
    config.routing.senders.insert(
        "alerts@teams.local".to_string(),
        rule(Some("teams"), &["ops-channel@teams.local"], vec![]),
    );
    config
        .routing
        .senders
        .insert("noreply@blocked.local".to_string(), rule(Some("reject"), &[], vec![]));
    config.routing.senders.insert(
        "alarm@monitoring.local".to_string(),
        rule(
            None,
            &[],
            vec![
                target("teams", &["ops-channel@teams.local"]),
                target("reject", &[]),
                target("ntfy", &[]),
                target("graph", &["oncall@example.com"]),
            ],
        ),
    );
    config
}

fn routes(config: Config, from: &str) -> Vec<(Option<String>, String)> {
    let handler = submit(config, from, &["<ziel@example.com>"], b"Subject: x\r\n\r\ny");
    let mails = handler.data_end().expect("accepted");
    let mut ids: Vec<u128> = mails.iter().map(|m| m.id).collect();
    ids.sort();
    ids.dedup();
    assert_eq!(ids.len(), mails.len());
    mails
        .into_iter()
        .map(|m| (m.transport.clone(), m.to[0].email.clone()))
        .collect()
}

#[test]
fn routing_goes_by_the_sender() {
    let graph = Some("graph".to_string());
    let teams = Some("teams".to_string());
    let ntfy = Some("ntfy".to_string());
    assert_eq!(
        routes(routed_config(), "<other@example.com>"),
        vec![(graph.clone(), "ziel@example.com".to_string())]
    );
    assert_eq!(
        routes(routed_config(), "<alerts@teams.local>"),
        vec![(teams.clone(), "ops-channel@teams.local".to_string())]
    );
    assert_eq!(
        routes(routed_config(), "<alarm@monitoring.local>"),
        vec![
            (teams, "ops-channel@teams.local".to_string()),
            (ntfy, "ziel@example.com".to_string()),
            (graph, "oncall@example.com".to_string()),
        ]
    );
    assert_eq!(
        routes(test_config(), "<other@example.com>"),
        vec![(None, "ziel@example.com".to_string())]
    );
}

#[test]
fn routing_refuses_senders() {
    let refused = |config: Config, from: &str| {
        let handler = submit(config, from, &["<ziel@example.com>"], b"Subject: x\r\n\r\ny");
        handler.data_end().expect_err("refused")
    };
    let reply = refused(routed_config(), "<noreply@blocked.local>");
    assert_eq!(reply.code(), 550);
    assert_eq!(reply.text(), "Sender rejected");
    let mut strict = routed_config();
    strict.routing.default = None;
    assert_eq!(refused(strict.clone(), "<other@example.com>").code(), 550);
    strict.routing.senders.insert(
        "other@example.com".to_string(),
        rule(Some("graph"), &[], vec![target("reject", &[])]),
    );
    assert_eq!(refused(strict, "<other@example.com>").code(), 550);
}

#[test]
fn refusals_come_before_routing() {
    let handler = session(routed_config());
    let reply = handler
        .route_built(Err(CoreError::InvalidMail("x".to_string())))
        .expect_err("refused");
    assert!(matches!(&reply, Reply::Rejected(text) if text == "invalid mail: x"));
    assert_eq!(reply.text(), "rejected: invalid mail: x");
}

#[test]
fn new_envelope_drops_the_old_one() {
    let mut handler = submit(test_config(), "<a@b.de>", &["<c@d.de>"], b"Subject: x\r\n\r\ny");
    assert_eq!(handler.mail(ip("::1"), "<e@f.de>").code(), 250);
    assert_eq!(handler.envelope_from, "<e@f.de>");
    assert!(handler.recipients.is_empty());
    assert!(handler.data.is_empty());
}

#[test]
fn listener_must_be_configured() {
    assert!(matches!(smtp_ingress(&Config::default()), Err(IngressError::Disabled)));
    assert_eq!(smtp_ingress(&test_config()).expect("configured").hostname, "oxid-test");
}

#[test]
fn storage_failures_are_internal_errors() {
    let reply = stored(Err(CoreError::Queue("full".to_string())));
    assert_eq!(reply.code(), 451);
    assert_eq!(reply.text(), "Aborted: local error in processing");
    assert_eq!(stored(Ok(())).text(), "OK");
}
