use oxid_relay::dispatcher::{Delivery, Dispatcher, DispatcherConfig, Tick, TickAction};
use oxid_relay::error::CoreError;
use oxid_relay::message::{Address, Mail, MailStatus, NewMail};
use oxid_relay::queue::{MailQueue, QueueUpdate};
use oxid_relay::retry::RetryPolicy;
use oxid_relay::startup::{
    default_transport, dispatcher_config, lock_path, missing_default, sqlite_url,
};
use oxid_relay::time::{Duration, Timestamp};

fn at(secs: i64) -> Timestamp {
    Timestamp::from_unix(1_700_000_000 + secs, 0).expect("time")
}

fn mail_with(id: u128, transport: Option<&str>) -> Mail {
    Mail::from_new(
        NewMail {
            from: Address::new("relay@example.com".to_string()),
            to: vec![Address::new("ziel@example.com".to_string())],
            subject: "Status".into(),
            body: "Okay".into(),
            transport: transport.map(|t| t.to_string()),
        },
        at(0),
        id,
    )
}

fn mail_for(transport: Option<&str>) -> Mail {
    mail_with(1, transport)
}

fn dispatcher(default: Option<&str>, config: DispatcherConfig) -> Dispatcher {
    Dispatcher::new(vec!["smtp".to_string()], default.map(|d| d.to_string()), config)
}

fn ok(_: &Mail) -> Result<(), CoreError> {
    Ok(())
}

fn fail(_: &Mail) -> Result<(), CoreError> {
    Err(CoreError::Transport("boom".into()))
}

/// Runs one tick against a queue; deliveries end in the order in which they were started.
/// Returns the number of mails processed and the most deliveries that ran at a time.
fn tick(
    dispatcher: &Dispatcher,
    queue: &mut MailQueue,
    now: Timestamp,
    send: fn(&Mail) -> Result<(), CoreError>,
) -> (usize, usize) {
    let due = queue.fetch_due(dispatcher.config.batch_size, now);
    let mut tick = dispatcher.tick(Ok(due));
    let mut running: Vec<Mail> = Vec::new();
    let mut most = 0;
    loop {
        match tick.ask() {
            TickAction::Claim(id) => tick.claimed(queue.update(id, QueueUpdate::Sending, now)),
            TickAction::Deliver(mail) => {
                running.push(mail);
                most = most.max(running.len());
            }
            TickAction::Wait => {
                let mail = running.remove(0);
                let update = match dispatcher.deliver(&mail) {
                    Delivery::Bury { update } => update,
                    Delivery::Send { transport } => {
                        assert_eq!(transport, "smtp");
                        assert!(dispatcher.records(&mail, now));
                        dispatcher.settle(&mail, send(&mail), now)
                    }
                };
                queue.update(mail.id, update, now).expect("record");
                tick.finished();
            }
            TickAction::Finish(processed) => {
                assert!(running.is_empty());
                return (processed, most);
            }
        }
    }
}

#[test]
fn delivers_and_marks_sent() {
    let mut queue = MailQueue::new();
    queue.enqueue(mail_for(Some("smtp"))).expect("enqueue");
    let dispatcher = dispatcher(None, DispatcherConfig::default());
    assert_eq!(tick(&dispatcher, &mut queue, at(1), ok).0, 1);
    assert_eq!(queue.get(1).expect("get").status, MailStatus::Sent);
}

#[test]
fn uses_default_transport_when_unset() {
    let mut queue = MailQueue::new();
    queue.enqueue(mail_for(None)).expect("enqueue");
    let dispatcher = dispatcher(Some("smtp"), DispatcherConfig::default());
    tick(&dispatcher, &mut queue, at(1), ok);
    assert_eq!(queue.get(1).expect("get").status, MailStatus::Sent);
}

#[test]
fn unknown_transport_is_buried() {
    let mut queue = MailQueue::new();
    queue.enqueue(mail_for(Some("does-not-exist"))).expect("enqueue");
    let dispatcher = dispatcher(None, DispatcherConfig::default());
    tick(&dispatcher, &mut queue, at(1), ok);
    let buried = queue.get(1).expect("get");
    assert_eq!(buried.status, MailStatus::Dead);
    assert_eq!(
        buried.last_error.as_deref(),
        Some("no transport available (requested Some(\"does-not-exist\"), default None)")
    );
}

#[test]
fn failure_reschedules_with_backoff() {
    let mut queue = MailQueue::new();
    queue.enqueue(mail_for(Some("smtp"))).expect("enqueue");
    let dispatcher = dispatcher(None, DispatcherConfig::default());
    tick(&dispatcher, &mut queue, at(1), fail);

    let loaded = queue.get(1).expect("get");
    assert_eq!(loaded.status, MailStatus::Failed);
    assert_eq!(loaded.attempts, 1);
    assert!(at(1).is_before(&loaded.next_attempt_at));
    assert_eq!(loaded.next_attempt_at, at(31));
    assert_eq!(loaded.last_error.as_deref(), Some("transport error: boom"));

    // Not due now, so a second tick does nothing.
    assert_eq!(tick(&dispatcher, &mut queue, at(1), fail).0, 0);
}

#[test]
fn exhausted_attempts_are_buried() {
    let mut queue = MailQueue::new();
    queue.enqueue(mail_for(Some("smtp"))).expect("enqueue");
    let config = DispatcherConfig {
        retry: RetryPolicy { max_attempts: 1, ..RetryPolicy::default() },
        ..DispatcherConfig::default()
    };
    tick(&dispatcher(None, config), &mut queue, at(1), fail);

    let loaded = queue.get(1).expect("get");
    assert_eq!(loaded.status, MailStatus::Dead);
    assert_eq!(loaded.attempts, 1);
}

#[test]
fn deliveries_run_in_parallel() {
    let mut queue = MailQueue::new();
    for id in 1..5 {
        queue.enqueue(mail_with(id, Some("smtp"))).expect("enqueue");
    }
    let config = DispatcherConfig { concurrency: 4, ..DispatcherConfig::default() };
    let (processed, most) = tick(&dispatcher(None, config), &mut queue, at(1), ok);
    assert_eq!(processed, 4);
    assert!(most >= 2, "expected parallel delivery, observed max concurrency {most}");
    assert_eq!(most, 4);
}

#[test]
fn limit_bounds_parallel_deliveries() {
    let mut queue = MailQueue::new();
    for id in 1..8 {
        queue.enqueue(mail_with(id, Some("smtp"))).expect("enqueue");
    }
    let config = DispatcherConfig { concurrency: 3, batch_size: 6, ..DispatcherConfig::default() };
    let dispatcher = dispatcher(None, config);
    assert_eq!(tick(&dispatcher, &mut queue, at(1), ok), (6, 3));
    assert_eq!(tick(&dispatcher, &mut queue, at(1), ok), (1, 1));
    assert_eq!(tick(&dispatcher, &mut queue, at(1), ok), (0, 0));
}

#[test]
fn failing_mail_is_retried_then_buried() {
    let mut queue = MailQueue::new();
    queue.enqueue(mail_for(Some("smtp"))).expect("enqueue");
    let dispatcher = dispatcher(None, DispatcherConfig::default());
    let mut now = 0;
    for delay in [30, 60, 120, 240] {
        assert_eq!(tick(&dispatcher, &mut queue, at(now), fail).0, 1);
        let loaded = queue.get(1).expect("get");
        assert_eq!(loaded.status, MailStatus::Failed);
        assert_eq!(loaded.next_attempt_at, at(now + delay));
        assert_eq!(tick(&dispatcher, &mut queue, at(now + delay - 1), fail).0, 0);
        now += delay;
    }
    assert_eq!(tick(&dispatcher, &mut queue, at(now), fail).0, 1);
    let loaded = queue.get(1).expect("get");
    assert_eq!(loaded.status, MailStatus::Dead);
    assert_eq!(loaded.attempts, 5);
    assert_eq!(tick(&dispatcher, &mut queue, at(now + 100_000), fail).0, 0);
}

#[test]
fn named_transport_is_not_replaced_by_the_default() {
    let dispatcher = dispatcher(Some("smtp"), DispatcherConfig::default());
    assert_eq!(dispatcher.transport_for(&mail_for(Some("teams"))), None);
    assert_eq!(dispatcher.transport_for(&mail_for(None)).as_deref(), Some("smtp"));
    assert_eq!(dispatcher.transport_for(&mail_for(Some("smtp"))).as_deref(), Some("smtp"));
}

#[test]
fn tick_skips_mails_that_cannot_be_claimed() {
    let due = vec![mail_with(1, None), mail_with(2, None)];
    let mut tick = Tick::start(Ok(due), 1);
    assert!(matches!(tick.ask(), TickAction::Claim(1)));
    tick.claimed(Err(CoreError::Queue("busy".to_string())));
    assert!(matches!(tick.ask(), TickAction::Claim(2)));
    tick.claimed(Ok(()));
    match tick.ask() {
        TickAction::Deliver(mail) => assert_eq!(mail.id, 2),
        other => panic!("expected a delivery, got {other:?}"),
    }
    assert!(matches!(tick.ask(), TickAction::Wait));
    tick.finished();
    assert!(matches!(tick.ask(), TickAction::Finish(1)));
    let mut failed = Tick::start(Err(CoreError::Queue("gone".to_string())), 8);
    assert!(matches!(failed.ask(), TickAction::Finish(0)));
    let mut blocked = Tick::start(Ok(vec![mail_with(1, None)]), 0);
    blocked.claimed(Ok(()));
    assert!(matches!(blocked.ask(), TickAction::Wait));
}

#[test]
fn endless_delays_become_a_minute() {
    let config = DispatcherConfig {
        retry: RetryPolicy {
            max_attempts: 9,
            base_delay: Duration::from_secs(u64::MAX),
            max_delay: Duration::from_secs(u64::MAX),
        },
        ..DispatcherConfig::default()
    };
    let dispatcher = dispatcher(None, config);
    let mail = mail_for(Some("smtp"));
    assert!(dispatcher.records(&mail, at(0)));
    match dispatcher.settle(&mail, fail(&mail), at(0)) {
        QueueUpdate::Failed { retry_at, .. } => assert_eq!(retry_at, at(60)),
        other => panic!("expected a retry, got {other:?}"),
    }
}

#[test]
fn unrecordable_deliveries_are_told() {
    let mut mail = mail_for(Some("smtp"));
    let config = DispatcherConfig {
        retry: RetryPolicy {
            max_attempts: 9,
            base_delay: Duration::from_secs(9_000_000_000_000),
            max_delay: Duration::from_secs(9_000_000_000_000),
        },
        ..DispatcherConfig::default()
    };
    assert!(!dispatcher(None, config).records(&mail, at(0)));
    mail.attempts = 8;
    assert!(dispatcher(None, config).records(&mail, at(0)));
    mail.attempts = u32::MAX;
    assert!(!dispatcher(None, config).records(&mail, at(0)));
}

#[test]
fn startup_values_come_from_the_configuration() {
    let mut config = oxid_relay::config::Config::default();
    config.dispatcher.batch_size = 7;
    config.dispatcher.concurrency = 2;
    config.dispatcher.poll_interval_secs = 1;
    config.dispatcher.sending_lease_secs = 3;
    config.dispatcher.max_attempts = 4;
    config.dispatcher.retry_base_secs = 6;
    config.dispatcher.retry_max_secs = 8;
    let mapped = dispatcher_config(&config);
    assert_eq!(mapped.batch_size, 7);
    assert_eq!(mapped.concurrency, 2);
    assert_eq!(mapped.poll_interval, Duration::from_secs(1));
    assert_eq!(mapped.sending_lease, Duration::from_secs(3));
    assert_eq!(mapped.retry.max_attempts, 4);
    assert_eq!(mapped.retry.base_delay, Duration::from_secs(6));
    assert_eq!(mapped.retry.max_delay, Duration::from_secs(8));

    assert_eq!(default_transport(&config, false), None);
    assert_eq!(default_transport(&config, true).as_deref(), Some("smtp"));
    config.mail.default_transport = Some("graph".to_string());
    assert_eq!(default_transport(&config, true).as_deref(), Some("graph"));

    let names = vec!["smtp".to_string(), "teams".to_string()];
    let graph = Some("graph".to_string());
    assert_eq!(missing_default(&graph, &names).as_deref(), Some("graph"));
    assert_eq!(missing_default(&Some("teams".to_string()), &names), None);
    assert_eq!(missing_default(&None, &names), None);
}

#[test]
fn database_gets_a_url_and_a_lock() {
    assert_eq!(sqlite_url("queue.db"), "sqlite:queue.db");
    assert_eq!(sqlite_url("sqlite:queue.db"), "sqlite:queue.db");
    assert_eq!(sqlite_url("SQLITE:x"), "sqlite:SQLITE:x");
    assert_eq!(lock_path("queue.db").as_deref(), Some("queue.db.lock"));
    assert_eq!(lock_path("sqlite::memory:"), None);
    assert_eq!(lock_path(" \n"), None);
}

#[test]
fn lock_follows_the_database() {
    for database in [
        "queue.db",
        "sqlite:queue.db",
        "sqlite://queue.db",
        "queue.db?mode=rwc",
        "sqlite:queue.db?mode=rwc&cache=shared",
        "sqlite://queue.db?",
        "queue%2Edb",
        "sqlite:file:queue.db",
    ] {
        assert_eq!(lock_path(database).as_deref(), Some("queue.db.lock"), "{database}");
    }
    let absolute = lock_path("sqlite:///var/lib/queue.db");
    assert_eq!(absolute.as_deref(), Some("/var/lib/queue.db.lock"));
    for database in [
        ":memory:",
        "sqlite://:memory:",
        "sqlite:",
        "sqlite://?mode=memory",
        "sqlite:file:x?mode=memory&cache=shared",
    ] {
        assert_eq!(lock_path(database), None, "{database}");
    }
    assert_eq!(lock_path("sqlite: ").as_deref(), Some(" .lock"));
    assert_eq!(lock_path("sqlite:\t?mode=rwc").as_deref(), Some("\t.lock"));
    assert_eq!(lock_path(" \t"), None);
    assert_eq!(lock_path(""), None);
    assert_eq!(lock_path("my:memory:.db").as_deref(), Some("my:memory:.db.lock"));
}

#[test]
fn tick_delivers_what_was_taken_up_in_order() {
    let due: Vec<Mail> = (1..6).map(|id| mail_with(id, None)).collect();
    let mut tick = Tick::start(Ok(due), 2);
    let mut delivered = Vec::new();
    loop {
        match tick.ask() {
            TickAction::Claim(id) if id % 2 == 0 => {
                tick.claimed(Err(CoreError::Queue("busy".to_string())))
            }
            TickAction::Claim(_) => tick.claimed(Ok(())),
            TickAction::Deliver(mail) => delivered.push(mail.id),
            TickAction::Wait => tick.finished(),
            TickAction::Finish(n) => {
                assert_eq!(n, 3);
                break;
            }
        }
    }
    assert_eq!(delivered, vec![1, 3, 5]);
}

#[test]
fn second_tick_leaves_a_failed_mail_as_it_is() {
    let mut queue = MailQueue::new();
    queue.enqueue(mail_for(Some("smtp"))).expect("enqueue");
    let dispatcher = dispatcher(None, DispatcherConfig::default());
    tick(&dispatcher, &mut queue, at(1), fail);
    let first = queue.get(1).expect("get");
    assert_eq!(tick(&dispatcher, &mut queue, at(1), ok), (0, 0));
    let second = queue.get(1).expect("get");
    assert_eq!(second.status, MailStatus::Failed);
    assert_eq!(second.attempts, 1);
    assert_eq!(second.updated_at, first.updated_at);
    assert_eq!(second.next_attempt_at, first.next_attempt_at);
    assert_eq!(second.last_error, first.last_error);
}
