//! The SMTP transport: its login, and the message that a mail becomes.

use vstd::prelude::*;

use crate::config::SmtpConfig;
use crate::env::Env;
use crate::error::CoreError;
use crate::message::{Address, Mail};
use crate::text::join;

verus! {

use crate::error::says_invalid_mail;
use crate::message::{AddressView, MailView};
use crate::text::{opt_text, strings};

/// What an SMTP server needs to know of the relay.
#[derive(Debug)]
pub struct SmtpTransport {
    /// Name of the transport.
    pub name: String,
    /// Host to connect to.
    pub host: String,
    /// Port to connect to.
    pub port: u16,
    /// Login user name.
    pub username: String,
    /// Login password.
    pub password: String,
}

/// A mailbox: an address with an optional display name.
#[derive(Debug)]
pub struct Mailbox {
    /// Display name.
    pub name: Option<String>,
    /// The address.
    pub email: String,
}

impl View for Mailbox {
    type V = (Option<Seq<char>>, Seq<char>);

    open spec fn view(&self) -> (Option<Seq<char>>, Seq<char>) {
        (opt_text(self.name), self.email@)
    }
}

/// What a list of mailboxes stands for.
pub open spec fn mailbox_views(list: Seq<Mailbox>) -> Seq<(Option<Seq<char>>, Seq<char>)> {
    list.map_values(|m: Mailbox| m@)
}

/// A message that is ready to be sent.
#[derive(Debug)]
pub struct Outgoing {
    /// Sender of the envelope.
    pub from: Option<String>,
    /// Recipients of the envelope.
    pub to: Vec<String>,
    /// The message.
    pub bytes: Vec<u8>,
}

/// The display name and the address of the mailbox that a text stands for, or what is wrong with
/// it.
pub uninterp spec fn mailbox_parsed(raw: Seq<char>) -> Result<
    (Option<Seq<char>>, Seq<char>),
    Seq<char>,
>;

/// The envelope and the bytes of a message that is dated `at`, or what keeps it from being
/// written.
pub uninterp spec fn message_written(
    at: i64,
    from: (Option<Seq<char>>, Seq<char>),
    to: Seq<(Option<Seq<char>>, Seq<char>)>,
    subject: Seq<char>,
    body: Seq<char>,
) -> Result<(Option<Seq<char>>, Seq<Seq<char>>, Seq<u8>), Seq<char>>;

/// `mailbox` is what a text was found to stand for.
pub open spec fn is_mailbox(
    mailbox: Result<Mailbox, String>,
    parsed: Result<(Option<Seq<char>>, Seq<char>), Seq<char>>,
) -> bool {
    match mailbox {
        Ok(mailbox) => parsed matches Ok(parts) && parts == mailbox@,
        Err(e) => parsed matches Err(detail) && detail == e@,
    }
}

/// `message` is what came of writing a message.
pub open spec fn is_written(
    message: Result<Outgoing, String>,
    written: Result<(Option<Seq<char>>, Seq<Seq<char>>, Seq<u8>), Seq<char>>,
) -> bool {
    match message {
        Ok(m) => written matches Ok(parts) && parts == (opt_text(m.from), strings(m.to@), m.bytes@),
        Err(e) => written matches Err(detail) && detail == e@,
    }
}

/// A display name does not hold the end of a line.
pub open spec fn on_one_line(name: Option<Seq<char>>) -> bool {
    name matches Some(name) ==> !name.contains('\n') && !name.contains('\r')
}

/// The display names of mailboxes do not hold the end of a line.
pub open spec fn all_on_one_line(list: Seq<(Option<Seq<char>>, Seq<char>)>) -> bool {
    forall|i: int| 0 <= i < list.len() ==> on_one_line((#[trigger] list[i]).0)
}

/// Trusted: `std::str::parse` to a `lettre::message::Mailbox` reads a mailbox, whose display name
/// never holds the end of a line; its error is handed on as text.
#[verifier::external_body]
fn parse_mailbox(raw: &str) -> (mailbox: Result<Mailbox, String>)
    ensures
        is_mailbox(mailbox, mailbox_parsed(raw@)),
        mailbox matches Ok(m) ==> on_one_line(m@.0),
{
    match raw.parse::<lettre::message::Mailbox>() {
        Ok(m) => Ok(Mailbox { name: m.name, email: m.email.to_string() }),
        Err(e) => Err(e.to_string()),
    }
}

/// Trusted: `lettre::message::MessageBuilder::body` writes a plain text message with the given
/// mailboxes, subject and body, and dates it with the system's time; its error is handed on as
/// text. It fails where there is no recipient. It panics on a display name that holds the end of
/// a line.
#[verifier::external_body]
fn write_message(from: &Mailbox, to: &Vec<Mailbox>, subject: &str, body: &str) -> (message: Result<
    Outgoing,
    String,
>)
    requires
        on_one_line(from@.0),
        all_on_one_line(mailbox_views(to@)),
    ensures
        exists|at: i64|
            is_written(
                message,
                #[trigger] message_written(at, from@, mailbox_views(to@), subject@, body@),
            ),
        to@.len() == 0 ==> message is Err,
{
    let read = |m: &Mailbox| match m.email.parse() {
        Ok(email) => Ok(lettre::message::Mailbox::new(m.name.clone(), email)),
        Err(e) => Err(e.to_string()),
    };
    let mut builder = lettre::Message::builder().from(read(from)?).subject(subject);
    for m in to {
        builder = builder.to(read(m)?);
    }
    let message = builder.body(body.to_string()).map_err(|e| e.to_string())?;
    let envelope = message.envelope();
    let from = envelope.from().map(ToString::to_string);
    let to = envelope.to().iter().map(ToString::to_string).collect();
    Ok(Outgoing { from, to, bytes: message.formatted() })
}

/// The text of a mailbox: the address, or the display name and the address in angle brackets.
pub open spec fn mailbox_text(addr: AddressView) -> Seq<char> {
    match addr.name {
        Some(name) => name + " <"@ + addr.email + ">"@,
        None => addr.email,
    }
}

/// The mailboxes of a list of addresses, or what is wrong with the first that has none.
pub open spec fn mailboxes(list: Seq<AddressView>) -> Result<
    Seq<(Option<Seq<char>>, Seq<char>)>,
    Seq<char>,
>
    decreases list.len(),
{
    if list.len() == 0 {
        Ok(Seq::empty())
    } else {
        match mailboxes(list.drop_last()) {
            Err(detail) => Err(detail),
            Ok(before) => match mailbox_parsed(mailbox_text(list.last())) {
                Ok(mailbox) => Ok(before.push(mailbox)),
                Err(detail) => Err(detail),
            },
        }
    }
}

/// `message` is what came of writing the message of `mail` at some time.
pub open spec fn is_message_of(
    message: Result<Outgoing, CoreError>,
    from: (Option<Seq<char>>, Seq<char>),
    to: Seq<(Option<Seq<char>>, Seq<char>)>,
    mail: MailView,
) -> bool {
    exists|at: i64|
        match #[trigger] message_written(at, from, to, mail.subject, mail.body) {
            Ok(parts) => message matches Ok(m) && parts == (
                opt_text(m.from),
                strings(m.to@),
                m.bytes@,
            ),
            Err(detail) => message matches Err(e) && says_invalid_mail(e, detail),
        }
}

impl SmtpTransport {
    /// The transport of a configuration, with the password that it names.
    pub fn new(config: &SmtpConfig, env: &Env) -> (transport: Result<Self, CoreError>)
        ensures
            match transport {
                Ok(t) => {
                    &&& env.value(config.password_env@) == Some(t.password@)
                    &&& t.name@ == "smtp"@
                    &&& t.host@ == config.host@
                    &&& t.port == config.port
                    &&& t.username@ == config.username@
                },
                Err(e) => env.value(config.password_env@) is None && e.text()
                    == "transport error: environment variable "@ + config.password_env@
                    + " is not set"@ && e is Transport,
            },
    {
        match config.password(env) {
            Ok(password) => Ok(
                SmtpTransport {
                    name: "smtp".to_owned(),
                    host: config.host.clone(),
                    port: config.port,
                    username: config.username.clone(),
                    password,
                },
            ),
            Err(e) => {
                let detail = e.message();
                proof {
                    reveal_strlit("transport error: ");
                    reveal_strlit("environment variable ");
                    reveal_strlit("transport error: environment variable ");
                    assert("transport error: "@ + detail@
                        == "transport error: environment variable "@ + config.password_env@
                        + " is not set"@);
                }
                Err(CoreError::Transport(detail))
            },
        }
    }

    /// The mailbox of an address.
    pub fn mailbox(addr: &Address) -> (mailbox: Result<Mailbox, CoreError>)
        ensures
            match mailbox_parsed(mailbox_text(addr@)) {
                Ok(parts) => mailbox matches Ok(m) && m@ == parts && on_one_line(parts.0),
                Err(detail) => mailbox matches Err(e) && says_invalid_mail(e, detail),
            },
    {
        let raw = match &addr.name {
            Some(name) => {
                let mut raw = join(name.as_str(), " <");
                raw.append(addr.email.as_str());
                raw.append(">");
                raw
            },
            None => addr.email.clone(),
        };
        match parse_mailbox(raw.as_str()) {
            Ok(mailbox) => Ok(mailbox),
            Err(e) => Err(CoreError::InvalidMail(e)),
        }
    }

    /// The mailboxes of a list of addresses.
    fn all_mailboxes(list: &Vec<Address>) -> (result: Result<Vec<Mailbox>, CoreError>)
        ensures
            match mailboxes(crate::message::addresses(list@)) {
                Ok(parts) => result matches Ok(m) && mailbox_views(m@) == parts
                    && all_on_one_line(parts),
                Err(detail) => result matches Err(e) && says_invalid_mail(e, detail),
            },
    {
        let ghost views = crate::message::addresses(list@);
        let mut done: Vec<Mailbox> = Vec::new();
        let mut i: usize = 0;
        assert(views.take(0) == Seq::<AddressView>::empty());
        assert(mailbox_views(done@) == Seq::<(Option<Seq<char>>, Seq<char>)>::empty());
        #[verifier::loop_isolation(false)]
        while i < list.len()
            invariant
                i <= list@.len(),
                mailboxes(views.take(i as int)) == Ok::<_, Seq<char>>(mailbox_views(done@)),
                all_on_one_line(mailbox_views(done@)),
            decreases list@.len() - i,
        {
            let ghost before = mailbox_views(done@);
            assert(views.take(i + 1).drop_last() == views.take(i as int));
            assert(views.take(i + 1).last() == list@[i as int]@);
            match Self::mailbox(&list[i]) {
                Ok(mailbox) => {
                    let ghost view = mailbox@;
                    done.push(mailbox);
                    assert(mailbox_views(done@) == before.push(view));
                },
                Err(e) => {
                    proof {
                        lemma_mailboxes_stay_bad(views, i + 1);
                    }
                    return Err(e);
                },
            }
            i += 1;
        }
        assert(views.take(list@.len() as int) == views);
        Ok(done)
    }

    /// The message of a mail.
    pub fn build_message(mail: &Mail) -> (message: Result<Outgoing, CoreError>)
        ensures
            match mailbox_parsed(mailbox_text(mail@.from)) {
                Err(detail) => message matches Err(e) && says_invalid_mail(e, detail),
                Ok(from) => match mailboxes(mail@.to) {
                    Err(detail) => message matches Err(e) && says_invalid_mail(e, detail),
                    Ok(to) => is_message_of(message, from, to, mail@),
                },
            },
            mail.to@.len() == 0 ==> message is Err,
    {
        let from = match Self::mailbox(&mail.from) {
            Ok(from) => from,
            Err(e) => {
                return Err(e);
            },
        };
        let to = match Self::all_mailboxes(&mail.to) {
            Ok(to) => to,
            Err(e) => {
                return Err(e);
            },
        };
        proof {
            lemma_mailboxes_len(mail@.to);
        }
        match write_message(&from, &to, mail.subject.as_str(), mail.body.as_str()) {
            Ok(message) => Ok(message),
            Err(e) => Err(CoreError::InvalidMail(e)),
        }
    }
}

proof fn lemma_mailboxes_stay_bad(list: Seq<AddressView>, n: int)
    requires
        0 <= n <= list.len(),
        mailboxes(list.take(n)) is Err,
    ensures
        mailboxes(list) == mailboxes(list.take(n)),
    decreases list.len() - n,
{
    if n < list.len() {
        assert(list.take(n + 1).drop_last() == list.take(n));
        lemma_mailboxes_stay_bad(list, n + 1);
    } else {
        assert(list.take(n) == list);
    }
}

proof fn lemma_mailboxes_len(list: Seq<AddressView>)
    ensures
        mailboxes(list) matches Ok(done) ==> done.len() == list.len(),
    decreases list.len(),
{
    if list.len() > 0 {
        lemma_mailboxes_len(list.drop_last());
    }
}

/// The mailbox of an address without a display name is written as the address alone; else the
/// display name stands first and the address behind it in angle brackets.
pub proof fn law_how_a_mailbox_is_written(addr: AddressView)
    ensures
        addr.name is None ==> mailbox_text(addr) == addr.email,
        addr.name matches Some(name) ==> ({
            let text = mailbox_text(addr);
            let n = name.len() as int;
            &&& text.len() == n + addr.email.len() + 3
            &&& text.take(n) == name
            &&& text[n] == ' ' && text[n + 1] == '<' && text.last() == '>'
            &&& text.subrange(n + 2, n + 2 + addr.email.len()) == addr.email
        }),
{
    reveal_strlit(" <");
    reveal_strlit(">");
    if let Some(name) = addr.name {
        let text = mailbox_text(addr);
        let n = name.len() as int;
        assert(text.take(n) == name);
        assert(text.subrange(n + 2, n + 2 + addr.email.len()) == addr.email);
    }
}

/// Every recipient gets a mailbox, in the same order. Where one cannot be read, what is wrong
/// with the first such recipient is reported.
pub proof fn law_every_recipient_gets_a_mailbox(list: Seq<AddressView>)
    ensures
        match mailboxes(list) {
            Ok(done) => done.len() == list.len() && forall|i: int|
                0 <= i < list.len() ==> (mailbox_parsed(mailbox_text(#[trigger] list[i])) matches Ok(
                    mailbox,
                ) && mailbox == done[i]),
            Err(detail) => exists|i: int|
                0 <= i < list.len() && (mailbox_parsed(mailbox_text(#[trigger] list[i])) matches Err(
                    text,
                ) && text == detail) && forall|j: int|
                    0 <= j < i ==> mailbox_parsed(mailbox_text(#[trigger] list[j])) is Ok,
        },
    decreases list.len(),
{
    if list.len() > 0 {
        let before = list.drop_last();
        let last = list.len() - 1;
        law_every_recipient_gets_a_mailbox(before);
        assert(list[last] == list.last());
        assert forall|i: int| 0 <= i < last implies #[trigger] list[i] == before[i] by {}
        if let Err(detail) = mailboxes(before) {
            let i = choose|i: int|
                0 <= i < before.len() && (mailbox_parsed(
                    mailbox_text(#[trigger] before[i]),
                ) matches Err(text) && text == detail) && forall|j: int|
                    0 <= j < i ==> mailbox_parsed(mailbox_text(#[trigger] before[j])) is Ok;
            assert(list[i] == before[i]);
            assert forall|j: int| 0 <= j < i implies mailbox_parsed(
                mailbox_text(#[trigger] list[j]),
            ) is Ok by {
                assert(before[j] == list[j]);
            }
        } else {
            assert forall|j: int| 0 <= j < last implies mailbox_parsed(
                mailbox_text(#[trigger] list[j]),
            ) is Ok by {
                assert(before[j] == list[j]);
            }
        }
    }
}

/// A message that is sent was written with the sender and the recipients that were handed over
/// and with the subject and the body of the mail.
pub proof fn law_message_says_what_the_mail_says(
    message: Result<Outgoing, CoreError>,
    from: (Option<Seq<char>>, Seq<char>),
    to: Seq<(Option<Seq<char>>, Seq<char>)>,
    mail: MailView,
)
    requires
        is_message_of(message, from, to, mail),
    ensures
        message matches Ok(m) ==> exists|at: i64|
            #[trigger] message_written(at, from, to, mail.subject, mail.body) == Ok::<
                _,
                Seq<char>,
            >((opt_text(m.from), strings(m.to@), m.bytes@)),
        message matches Err(e) ==> e is InvalidMail,
{
}

/// The view of a mailbox holds its display name and its address, and that of a list every mailbox.
pub proof fn law_view_of_mailboxes(mailbox: Mailbox, list: Seq<Mailbox>)
    ensures
        mailbox.name is None <==> mailbox@.0 is None,
        mailbox.name matches Some(name) ==> mailbox@.0 == Some(name@),
        mailbox@.1 == mailbox.email@,
        mailbox_views(list).len() == list.len(),
        forall|i: int| 0 <= i < list.len() ==> #[trigger] mailbox_views(list)[i] == list[i]@,
{
}

/// The transport connects to the configured host and port and logs in with the configured user
/// name and the password that the variable holds; without that there is no transport.
pub proof fn law_transport_is_that_of_the_configuration(
    config: &SmtpConfig,
    env: &Env,
    transport: Result<SmtpTransport, CoreError>,
)
    requires
        call_ensures(SmtpTransport::new, (config, env), transport),
    ensures
        transport is Ok <==> env.value(config.password_env@) is Some,
        transport matches Ok(t) ==> {
            &&& t.host@ == config.host@
            &&& t.port == config.port
            &&& t.username@ == config.username@
            &&& Some(t.password@) == env.value(config.password_env@)
            &&& t.name@ == "smtp"@
        },
        transport matches Err(e) ==> e is Transport,
{
}

/// The message of a mail is written from its sender, to all of its recipients, with its subject
/// and its body; where one of the addresses cannot be read, or there is no recipient, there is no
/// message.
pub proof fn law_message_of_a_mail(mail: &Mail, message: Result<Outgoing, CoreError>)
    requires
        call_ensures(SmtpTransport::build_message, (mail,), message),
    ensures
        mail.to@.len() == 0 ==> message is Err,
        message matches Err(e) ==> e is InvalidMail,
        message matches Ok(m) ==> exists|
            at: i64,
            from: (Option<Seq<char>>, Seq<char>),
            to: Seq<(Option<Seq<char>>, Seq<char>)>,
        |
            {
                &&& #[trigger] message_written(at, from, to, mail.subject@, mail.body@) == Ok::<
                    _,
                    Seq<char>,
                >((opt_text(m.from), strings(m.to@), m.bytes@))
                &&& mailbox_parsed(mailbox_text(mail.from@)) == Ok::<_, Seq<char>>(from)
                &&& to.len() == mail.to@.len()
                &&& forall|i: int|
                    0 <= i < to.len() ==> mailbox_parsed(mailbox_text((#[trigger] mail.to@[i])@))
                        == Ok::<_, Seq<char>>(to[i])
            },
{
    law_every_recipient_gets_a_mailbox(mail@.to);
    assert(mail@.to.len() == mail.to@.len());
    if let Ok(m) = message {
        let from = mailbox_parsed(mailbox_text(mail@.from))->Ok_0;
        let to = mailboxes(mail@.to)->Ok_0;
        let at = choose|at: i64|
            #[trigger] message_written(at, from, to, mail@.subject, mail@.body) == Ok::<
                _,
                Seq<char>,
            >((opt_text(m.from), strings(m.to@), m.bytes@));
        assert forall|i: int| 0 <= i < to.len() implies mailbox_parsed(
            mailbox_text((#[trigger] mail.to@[i])@),
        ) == Ok::<_, Seq<char>>(to[i]) by {
            assert(mail@.to[i] == mail.to@[i]@);
        }
        assert(message_written(at, from, to, mail.subject@, mail.body@) == Ok::<_, Seq<char>>(
            (opt_text(m.from), strings(m.to@), m.bytes@),
        ));
    }
}

} // verus!
