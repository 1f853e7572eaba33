use oxid_relay::error::CoreError;
use oxid_relay::message::{Address, Mail, MailStatus, NewMail};
use oxid_relay::queue::{apply_update, select_due, select_pending, stale, MailQueue, QueueUpdate};
use oxid_relay::storage::{
    mail_to_row, parse_time, row_to_mail, status_from_str, status_to_str, MailRow,
};
use oxid_relay::time::{Duration, Timestamp};

fn at(secs: i64) -> Timestamp {
    Timestamp::from_unix(1_700_000_000 + secs, 250_000_000).expect("time")
}

fn sample_with(id: u128, created: Timestamp) -> Mail {
    Mail::from_new(
        NewMail {
            from: Address::new("relay@example.com".to_string()),
            to: vec![Address {
                email: "ziel@example.com".into(),
                name: Some("Zustellung".into()),
            }],
            subject: "Grüße".into(),
            body: "Körper".into(),
            transport: None,
        },
        created,
        id,
    )
}

fn sample() -> Mail {
    sample_with(42, at(0))
}

#[test]
fn enqueue_and_get_roundtrip() {
    let mut queue = MailQueue::new();
    let mail = sample();
    let id = mail.id;
    queue.enqueue(mail).expect("enqueue");

    let loaded = queue.get(id).expect("get");
    assert_eq!(loaded.subject, "Grüße");
    assert_eq!(loaded.status, MailStatus::Pending);
    assert_eq!(loaded.to.len(), 1);
    assert_eq!(loaded.to[0].name.as_deref(), Some("Zustellung"));
}

#[test]
fn get_unknown_returns_not_found() {
    let queue = MailQueue::new();
    let err = queue.get(42).expect_err("not found");
    assert!(matches!(err, CoreError::NotFound(_)));
    assert_eq!(
        err.message(),
        "mail not found: 00000000-0000-0000-0000-00000000002a"
    );
}

#[test]
fn fetch_pending_returns_pending_and_failed() {
    let mut queue = MailQueue::new();
    queue.enqueue(sample()).expect("enqueue");

    let pending = queue.fetch_pending(10);
    assert_eq!(pending.len(), 1);

    queue
        .update_status(42, MailStatus::Failed, Some("x".to_string()), at(1))
        .expect("update");
    assert_eq!(queue.fetch_pending(10).len(), 1);
}

#[test]
fn fetch_pending_skips_sent() {
    let mut queue = MailQueue::new();
    let mail = sample();
    let id = mail.id;
    queue.enqueue(mail).expect("enqueue");
    queue.update_status(id, MailStatus::Sent, None, at(1)).expect("update");

    let pending = queue.fetch_pending(10);
    assert!(pending.is_empty());
}

#[test]
fn update_status_marks_sent_and_counts_attempt() {
    let mut queue = MailQueue::new();
    let mail = sample();
    let id = mail.id;
    queue.enqueue(mail).expect("enqueue");

    queue.update_status(id, MailStatus::Sent, None, at(1)).expect("update");

    let loaded = queue.get(id).expect("get");
    assert_eq!(loaded.status, MailStatus::Sent);
    assert_eq!(loaded.attempts, 1);
    assert_eq!(loaded.updated_at, at(1));
    assert_eq!(loaded.created_at, at(0));
}

#[test]
fn update_status_records_error_for_failure() {
    let mut queue = MailQueue::new();
    let mail = sample();
    let id = mail.id;
    queue.enqueue(mail).expect("enqueue");

    queue
        .update_status(id, MailStatus::Failed, Some("smtp timeout".into()), at(1))
        .expect("update");

    let loaded = queue.get(id).expect("get");
    assert_eq!(loaded.status, MailStatus::Failed);
    assert_eq!(loaded.last_error.as_deref(), Some("smtp timeout"));
}

#[test]
fn update_status_unknown_returns_not_found() {
    let mut queue = MailQueue::new();
    let err = queue
        .update_status(42, MailStatus::Sent, None, at(0))
        .expect_err("not found");
    assert!(matches!(err, CoreError::NotFound(_)));
}

#[test]
fn second_mail_with_the_same_id_is_refused() {
    let mut queue = MailQueue::new();
    queue.enqueue(sample()).expect("enqueue");
    let err = queue.enqueue(sample_with(42, at(9))).expect_err("same id");
    assert_eq!(
        err.message(),
        "queue error: error returned from database: (code: 1555) UNIQUE constraint failed: mails.id"
    );
    assert_eq!(queue.get(42).expect("get").created_at, at(0));
    queue.enqueue(sample_with(43, at(9))).expect("other id");
    assert_eq!(queue.get(43).expect("get").created_at, at(9));
}

#[test]
fn due_mails_come_oldest_first_up_to_the_limit() {
    let mut queue = MailQueue::new();
    for (id, created) in [(1, 5), (2, 3), (3, 4), (4, 3)] {
        queue.enqueue(sample_with(id, at(created))).expect("enqueue");
    }
    let ids = |mails: Vec<Mail>| mails.iter().map(|m| m.id).collect::<Vec<_>>();
    assert_eq!(ids(queue.fetch_due(10, at(100))), vec![2, 4, 3, 1]);
    assert_eq!(ids(queue.fetch_due(2, at(100))), vec![2, 4]);
    assert_eq!(ids(queue.fetch_due(0, at(100))), Vec::<u128>::new());
    assert_eq!(ids(queue.fetch_due(10, at(4))), vec![2, 4, 3]);
    assert_eq!(ids(queue.fetch_pending(3)), vec![2, 4, 3]);
    queue.update(2, QueueUpdate::Sending, at(6)).expect("claim");
    assert_eq!(ids(queue.fetch_due(2, at(100))), vec![4, 3]);
}

#[test]
fn updates_change_what_they_say() {
    let mut mail = sample();
    apply_update(&mut mail, QueueUpdate::Sending, at(1));
    assert_eq!((mail.status, mail.attempts), (MailStatus::Sending, 0));
    let failed = QueueUpdate::Failed { error: "e".to_string(), retry_at: at(60) };
    apply_update(&mut mail, failed, at(2));
    assert_eq!((mail.status, mail.attempts), (MailStatus::Failed, 1));
    assert_eq!(mail.next_attempt_at, at(60));
    assert_eq!(mail.last_error.as_deref(), Some("e"));
    assert!(select_due(&vec![mail.clone()], 1, at(59)).is_empty());
    assert_eq!(select_due(&vec![mail.clone()], 1, at(60)).len(), 1);
    assert_eq!(select_pending(&vec![mail.clone()], 1).len(), 1);
    apply_update(&mut mail, QueueUpdate::Sent, at(61));
    assert_eq!((mail.status, mail.attempts), (MailStatus::Sent, 2));
    assert_eq!(mail.last_error, None);
    apply_update(&mut mail, QueueUpdate::Dead { error: "d".to_string() }, at(62));
    assert_eq!((mail.status, mail.attempts), (MailStatus::Dead, 3));
    assert_eq!(mail.last_error.as_deref(), Some("d"));
    assert!(select_due(&vec![mail.clone()], 1, at(100)).is_empty());
    mail.attempts = u32::MAX;
    apply_update(&mut mail, QueueUpdate::Sent, at(63));
    assert_eq!(mail.attempts, 0);
}

#[test]
fn mails_in_delivery_are_given_back() {
    let mut queue = MailQueue::new();
    for id in 1..4 {
        queue.enqueue(sample_with(id, at(0))).expect("enqueue");
    }
    queue.update(1, QueueUpdate::Sending, at(10)).expect("claim");
    queue.update(2, QueueUpdate::Sending, at(50)).expect("claim");
    queue.update(3, QueueUpdate::Sent, at(50)).expect("sent");
    assert!(stale(&queue.get(1).expect("get"), at(131), Duration::from_secs(120)));
    assert!(!stale(&queue.get(1).expect("get"), at(130), Duration::from_secs(120)));
    assert_eq!(queue.requeue_stale(at(131), Duration::from_secs(120)), 1);
    assert_eq!(queue.get(1).expect("get").status, MailStatus::Pending);
    assert_eq!(queue.get(2).expect("get").status, MailStatus::Sending);
    assert_eq!(queue.requeue_sending(at(132)), 1);
    assert_eq!(queue.get(2).expect("get").status, MailStatus::Pending);
    assert_eq!(queue.get(3).expect("get").status, MailStatus::Sent);
    assert_eq!(queue.requeue_sending(at(133)), 0);
}

#[test]
fn updates_of_two_mails_commute() {
    let run = |first: u128, second: u128| {
        let mut queue = MailQueue::new();
        queue.enqueue(sample_with(1, at(0))).expect("enqueue");
        queue.enqueue(sample_with(2, at(0))).expect("enqueue");
        for id in [first, second] {
            let update = if id == 1 {
                QueueUpdate::Sent
            } else {
                QueueUpdate::Dead { error: "d".to_string() }
            };
            queue.update(id, update, at(1)).expect("update");
        }
        (queue.get(1).expect("get").status, queue.get(2).expect("get").status)
    };
    assert_eq!(run(1, 2), run(2, 1));
    assert_eq!(run(1, 2), (MailStatus::Sent, MailStatus::Dead));
}

#[test]
fn states_are_read_back_from_their_texts() {
    for status in [
        MailStatus::Pending,
        MailStatus::Sending,
        MailStatus::Sent,
        MailStatus::Failed,
        MailStatus::Dead,
    ] {
        assert_eq!(status_from_str(status_to_str(status)).expect("known"), status);
    }
    assert_eq!(status_to_str(MailStatus::Sending), "sending");
    assert_eq!(
        status_from_str("Pending").expect_err("unknown").message(),
        "queue error: unknown status: Pending"
    );
}

#[test]
fn rows_hold_mails() {
    let mut mail = sample();
    mail.transport = Some("teams".to_string());
    mail.attempts = 3;
    mail.last_error = Some("e".to_string());
    let row = mail_to_row(&mail);
    assert_eq!(row.id, "00000000-0000-0000-0000-00000000002a");
    assert_eq!(row.status, "pending");
    assert_eq!(row.attempts, 3);
    assert_eq!(row.created_at, "2023-11-14T22:13:20.250+00:00");
    let read = row_to_mail(row).expect("readable");
    assert_eq!(read.id, 42);
    assert_eq!(read.from, mail.from);
    assert_eq!(read.to, mail.to);
    assert_eq!(read.subject, mail.subject);
    assert_eq!(read.body, mail.body);
    assert_eq!(read.transport, mail.transport);
    assert_eq!(read.status, mail.status);
    assert_eq!(read.attempts, 3);
    assert_eq!(read.last_error, mail.last_error);
    assert_eq!(read.created_at, mail.created_at);
    assert_eq!(read.updated_at, mail.updated_at);
    assert_eq!(read.next_attempt_at, mail.next_attempt_at);
}

#[test]
fn unreadable_rows_say_why() {
    let row = || mail_to_row(&sample());
    let text = |row: MailRow| row_to_mail(row).expect_err("unreadable").message();
    assert_eq!(
        text(MailRow { sender: Err("s".to_string()), ..row() }),
        "queue error: decode sender: s"
    );
    assert_eq!(
        text(MailRow { recipients: Err("r".to_string()), ..row() }),
        "queue error: decode recipients: r"
    );
    assert!(text(MailRow { id: "x".to_string(), ..row() }).starts_with("queue error: decode id: "));
    assert_eq!(
        text(MailRow { status: "x".to_string(), ..row() }),
        "queue error: unknown status: x"
    );
    for broken in [
        MailRow { created_at: "x".to_string(), ..row() },
        MailRow { updated_at: "x".to_string(), ..row() },
        MailRow { next_attempt_at: "x".to_string(), ..row() },
    ] {
        assert!(text(broken).starts_with("queue error: decode timestamp: "));
    }
    let wrapped = row_to_mail(MailRow { attempts: 4_294_967_297, ..row() }).expect("readable");
    assert_eq!(wrapped.attempts, 1);
}

#[test]
fn points_in_time_are_read_with_any_offset() {
    let t = parse_time("2023-11-14T23:13:20.250+01:00").expect("time");
    assert_eq!(t, at(0));
    let leap = parse_time("2016-12-31T23:59:60.5Z").expect("time");
    assert_eq!((leap.unix_secs(), leap.subsec_nanos()), (1_483_228_799, 1_500_000_000));
    let mut mail = sample();
    mail.created_at = leap;
    assert_eq!(row_to_mail(mail_to_row(&mail)).expect("readable").created_at, leap);
}

#[test]
fn spans_are_added_to_points_in_time() {
    assert_eq!(at(0).after(Duration::from_secs(90)), at(90));
    let t = Timestamp::from_unix(0, 900_000_000).expect("time");
    let later = t.after(Duration::from_parts(1, 200_000_000));
    assert_eq!((later.unix_secs(), later.subsec_nanos()), (2, 100_000_000));
    let leap = Timestamp::from_unix(1_483_228_799, 1_500_000_000).expect("time");
    let inside = leap.after(Duration::from_parts(0, 400_000_000));
    assert_eq!((inside.unix_secs(), inside.subsec_nanos()), (1_483_228_799, 1_900_000_000));
    let outside = leap.after(Duration::from_parts(0, 600_000_000));
    assert_eq!((outside.unix_secs(), outside.subsec_nanos()), (1_483_228_800, 100_000_000));
    assert!(at(0).is_before(&at(1)));
    assert!(!at(0).is_before(&at(0)));
    assert!(!at(0).accepts(Duration::from_secs(u64::MAX)));
    assert!(!at(0).accepts(Duration::from_secs(8_210_266_876_800)));
    assert!(at(0).accepts(Duration::from_secs(1_000_000)));
    assert!(Timestamp::from_unix(0, 1_000_000_000).is_none());
    assert!(Timestamp::from_unix(i64::MAX, 0).is_none());
}
