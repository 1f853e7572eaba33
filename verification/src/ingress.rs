//! The SMTP ingress: who may submit a mail, what is made of it, and how each command is answered.

use std::sync::Arc;

use vstd::prelude::*;

use crate::config::{Config, SmtpIngressConfig};
use crate::env::Env;
use crate::error::{CoreError, IngressError};
use crate::id::{fresh_id, MailId};
use crate::message::{Address, Mail, NewMail};
use crate::text::{join, read_lossy, strip_leading, strip_trailing, trim};
use crate::time::Timestamp;
use crate::whitelist::{is_allowed, parse_whitelist, IpAddress, IpNetwork};

verus! {

use crate::error::says_invalid_mail;
use crate::message::{queued, AddressView, NewMailView};
use crate::routing::{law_without_rules_mail_stays_as_it_is, RouteView};
use crate::text::{
    contains_text, drop_leading, drop_trailing, is_white_space, lossy_text, occurs_at, opt_text,
    strings, trimmed,
};
use crate::whitelist::{allows, named_networks, network_views};

/// What a command is answered.
#[derive(Debug)]
pub enum Reply {
    /// The command succeeded.
    Done,
    /// The credentials were accepted.
    AuthOk,
    /// The address is not on the whitelist.
    Unavailable,
    /// The mail could not be stored.
    InternalError,
    /// The credentials could not be checked.
    TempAuthFailure,
    /// Credentials must come first.
    AuthenticationRequired,
    /// The credentials were refused.
    InvalidCredentials,
    /// The routing rules refuse the sender.
    SenderRejected,
    /// The mail was refused, for this reason.
    Rejected(String),
}

/// What a [`Reply`] stands for.
pub enum ReplyView {
    Done,
    AuthOk,
    Unavailable,
    InternalError,
    TempAuthFailure,
    AuthenticationRequired,
    InvalidCredentials,
    SenderRejected,
    Rejected(Seq<char>),
}

impl View for Reply {
    type V = ReplyView;

    open spec fn view(&self) -> ReplyView {
        match *self {
            Reply::Done => ReplyView::Done,
            Reply::AuthOk => ReplyView::AuthOk,
            Reply::Unavailable => ReplyView::Unavailable,
            Reply::InternalError => ReplyView::InternalError,
            Reply::TempAuthFailure => ReplyView::TempAuthFailure,
            Reply::AuthenticationRequired => ReplyView::AuthenticationRequired,
            Reply::InvalidCredentials => ReplyView::InvalidCredentials,
            Reply::SenderRejected => ReplyView::SenderRejected,
            Reply::Rejected(reason) => ReplyView::Rejected(reason@),
        }
    }
}

impl ReplyView {
    /// The reply code of SMTP.
    pub open spec fn smtp_code(self) -> u16 {
        match self {
            ReplyView::Done => 250,
            ReplyView::AuthOk => 235,
            ReplyView::Unavailable => 421,
            ReplyView::InternalError => 451,
            ReplyView::TempAuthFailure => 454,
            ReplyView::AuthenticationRequired => 530,
            ReplyView::InvalidCredentials => 535,
            ReplyView::SenderRejected => 550,
            ReplyView::Rejected(_) => 554,
        }
    }

    /// The text that follows the code.
    pub open spec fn smtp_text(self) -> Seq<char> {
        match self {
            ReplyView::Done => "OK"@,
            ReplyView::AuthOk => "Authentication succeeded"@,
            ReplyView::Unavailable => "Service not available"@,
            ReplyView::InternalError => "Aborted: local error in processing"@,
            ReplyView::TempAuthFailure => "Temporary authentication failure"@,
            ReplyView::AuthenticationRequired => "Authentication required"@,
            ReplyView::InvalidCredentials => "Invalid credentials"@,
            ReplyView::SenderRejected => "Sender rejected"@,
            ReplyView::Rejected(reason) => "rejected: "@ + reason,
        }
    }
}

impl Reply {
    /// The reply code of SMTP.
    pub fn code(&self) -> (code: u16)
        ensures
            code == self@.smtp_code(),
    {
        match self {
            Reply::Done => 250,
            Reply::AuthOk => 235,
            Reply::Unavailable => 421,
            Reply::InternalError => 451,
            Reply::TempAuthFailure => 454,
            Reply::AuthenticationRequired => 530,
            Reply::InvalidCredentials => 535,
            Reply::SenderRejected => 550,
            Reply::Rejected(_) => 554,
        }
    }

    /// The text that follows the code.
    pub fn text(&self) -> (text: String)
        ensures
            text@ == self@.smtp_text(),
    {
        match self {
            Reply::Done => "OK".to_owned(),
            Reply::AuthOk => "Authentication succeeded".to_owned(),
            Reply::Unavailable => "Service not available".to_owned(),
            Reply::InternalError => "Aborted: local error in processing".to_owned(),
            Reply::TempAuthFailure => "Temporary authentication failure".to_owned(),
            Reply::AuthenticationRequired => "Authentication required".to_owned(),
            Reply::InvalidCredentials => "Invalid credentials".to_owned(),
            Reply::SenderRejected => "Sender rejected".to_owned(),
            Reply::Rejected(reason) => join("rejected: ", reason.as_str()),
        }
    }
}

/// The address in an SMTP path: without the white space around it, the angle brackets, and the
/// white space inside them.
pub open spec fn bare(raw: Seq<char>) -> Seq<char> {
    trimmed(
        drop_trailing(drop_leading(trimmed(raw), |c: char| c == '<'), |c: char| c == '>'),
    )
}

/// Removes the angle brackets and the white space around an address.
pub fn strip_brackets(raw: &str) -> (s: String)
    ensures
        s@ == bare(raw@),
{
    let outer = trim(raw);
    let opened = strip_leading(outer.as_str(), '<');
    let closed = strip_trailing(opened.as_str(), '>');
    trim(closed.as_str())
}

/// What the connections share.
#[derive(Debug)]
pub struct Context {
    /// The networks that may submit mail.
    pub whitelist: Vec<IpNetwork>,
    /// The configuration.
    pub config: Config,
}

impl Context {
    /// The address may submit mail.
    pub open spec fn admits(self, ip: IpAddress) -> bool {
        allows(network_views(self.whitelist@), ip)
    }
}

/// The shared context of a configuration.
pub fn context(config: Config) -> (ctx: Context)
    ensures
        ctx.config == config,
        network_views(ctx.whitelist@) == named_networks(strings(config.security.ip_whitelist@)),
{
    let whitelist = parse_whitelist(&config.security.ip_whitelist);
    Context { whitelist, config }
}

/// The settings of the SMTP listener.
pub fn smtp_ingress(config: &Config) -> (smtp: Result<&SmtpIngressConfig, IngressError>)
    ensures
        match smtp {
            Ok(smtp) => config.ingress.smtp == Some(*smtp),
            Err(e) => config.ingress.smtp is None && e is Disabled,
        },
{
    match &config.ingress.smtp {
        Some(smtp) => Ok(smtp),
        None => Err(IngressError::Disabled),
    }
}

/// The subject and the text of the message that the bytes `data` hold.
pub uninterp spec fn message_parsed(data: Seq<u8>) -> Option<
    (Option<Seq<char>>, Option<Seq<char>>),
>;

/// The text that the named group of the regular expression `pattern` captures in `text`.
pub uninterp spec fn captured(
    pattern: Seq<char>,
    group: Seq<char>,
    text: Seq<char>,
) -> Option<Seq<char>>;

/// What a received message holds.
#[derive(Debug)]
pub struct Received {
    /// The subject, where there is one.
    pub subject: Option<String>,
    /// The text, where there is one.
    pub body: Option<String>,
}

/// `message` is what the bytes were found to hold.
pub open spec fn is_message(
    message: Option<Received>,
    parsed: Option<(Option<Seq<char>>, Option<Seq<char>>)>,
) -> bool {
    match message {
        Some(m) => parsed == Some((opt_text(m.subject), opt_text(m.body))),
        None => parsed is None,
    }
}

/// Trusted: `mail_parser::MessageParser::parse` reads a message; `mail_parser::Message::subject`
/// and `mail_parser::Message::body_text` of its first text part hand out what it holds.
#[verifier::external_body]
fn parse_message(data: &Vec<u8>) -> (message: Option<Received>)
    ensures
        is_message(message, message_parsed(data@)),
{
    let message = mail_parser::MessageParser::default().parse(data)?;
    Some(
        Received {
            subject: message.subject().map(|s| s.to_string()),
            body: message.body_text(0).map(|text| text.into_owned()),
        },
    )
}

/// Trusted: `regex::Regex::captures` searches `text` for a regular expression, and
/// `regex::Captures::name` hands out what a named group matched. There is none where the pattern
/// is not a regular expression or does not match.
#[verifier::external_body]
fn capture(pattern: &str, group: &str, text: &str) -> (found: Option<String>)
    ensures
        opt_text(found) == captured(pattern@, group@, text@),
{
    let found = regex::Regex::new(pattern).ok()?.captures(text)?.name(group)?.as_str().to_string();
    Some(found)
}

/// One SMTP connection and the mail that is being submitted on it.
#[derive(Debug)]
pub struct RelayHandler {
    /// What the connections share.
    pub ctx: Arc<Context>,
    /// The name that the client has authenticated as.
    pub authenticated_as: Option<String>,
    /// The sender of the envelope.
    pub envelope_from: String,
    /// The recipients of the envelope.
    pub recipients: Vec<String>,
    /// The message so far.
    pub data: Vec<u8>,
}

/// What a [`RelayHandler`] stands for, but for what it shares.
pub struct SessionView {
    pub authenticated_as: Option<Seq<char>>,
    pub envelope_from: Seq<char>,
    pub recipients: Seq<Seq<char>>,
    pub data: Seq<u8>,
}

impl View for RelayHandler {
    type V = SessionView;

    open spec fn view(&self) -> SessionView {
        SessionView {
            authenticated_as: opt_text(self.authenticated_as),
            envelope_from: self.envelope_from@,
            recipients: strings(self.recipients@),
            data: self.data@,
        }
    }
}

/// The addresses in a list of SMTP paths.
pub open spec fn bare_addresses(paths: Seq<Seq<char>>) -> Seq<AddressView> {
    paths.map_values(|path: Seq<char>| AddressView { email: bare(path), name: None })
}

impl SessionView {
    /// A connection on which nothing has been said.
    pub open spec fn fresh() -> SessionView {
        SessionView {
            authenticated_as: None,
            envelope_from: Seq::empty(),
            recipients: Seq::empty(),
            data: Seq::empty(),
        }
    }

    /// The name of the sender: the one that the client has authenticated as, or else in
    /// anonymous mode the one that the configured pattern finds in the subject.
    pub open spec fn sender_name(self, config: Config, subject: Seq<char>) -> Option<Seq<char>> {
        if self.authenticated_as is Some {
            self.authenticated_as
        } else if config.auth.anonymous.enabled {
            match config.auth.anonymous.subject_match {
                Some(pattern) => captured(pattern@, "name"@, subject),
                None => None,
            }
        } else {
            None
        }
    }

    /// The mail of a message with the given subject and body from a sender of the given name.
    /// The subject carries the sender's label where the sender has a name.
    pub open spec fn assembled(
        self,
        config: Config,
        subject: Seq<char>,
        body: Seq<char>,
        name: Option<Seq<char>>,
    ) -> NewMailView {
        NewMailView {
            from: AddressView { email: bare(self.envelope_from), name: None },
            to: bare_addresses(self.recipients),
            subject: match name {
                Some(name) => config.subject.rendered(name, subject),
                None => subject,
            },
            body,
            transport: None,
        }
    }

    /// The mail of a message as it was parsed.
    pub open spec fn composed(
        self,
        config: Config,
        message: (Option<Seq<char>>, Option<Seq<char>>),
    ) -> NewMailView {
        let subject = match message.0 {
            Some(subject) => subject,
            None => Seq::empty(),
        };
        let body = match message.1 {
            Some(body) => body,
            None => lossy_text(self.data),
        };
        self.assembled(config, subject, body, self.sender_name(config, subject))
    }
}

/// `built` is the mail `mail` where nothing is wrong with it, and else says what is.
pub open spec fn is_checked(built: Result<NewMail, CoreError>, mail: NewMailView) -> bool {
    match built {
        Ok(new) => new@ == mail && mail.problem() is None,
        Err(e) => mail.problem() matches Some(detail) && e is InvalidMail && e.text()
            == "invalid mail: "@ + detail,
    }
}

/// What a list of mails to be queued stands for.
pub open spec fn new_mail_views(list: Seq<NewMail>) -> Seq<NewMailView> {
    list.map_values(|m: NewMail| m@)
}

/// The mails that a mail becomes on its routes.
pub open spec fn routed(mail: NewMailView, routes: Seq<RouteView>) -> Seq<NewMailView> {
    routes.map_values(
        |r: RouteView| NewMailView { to: r.recipients, transport: r.transport, ..mail },
    )
}

impl RelayHandler {
    /// A new connection.
    pub fn new(ctx: Arc<Context>) -> (h: Self)
        ensures
            h@ == SessionView::fresh(),
            h.ctx == ctx,
    {
        let h = RelayHandler {
            ctx,
            authenticated_as: None,
            envelope_from: String::new(),
            recipients: Vec::new(),
            data: Vec::new(),
        };
        assert(h@.recipients == Seq::<Seq<char>>::empty());
        assert(h@.envelope_from == Seq::<char>::empty());
        h
    }

    /// Answers credentials.
    pub fn try_auth(&mut self, user: &str, password: &str, env: &Env) -> (reply: Reply)
        ensures
            final(self).ctx == old(self).ctx,
            match old(self).ctx.config.auth.verdict(user@, password@, *env) {
                Ok(Some(name)) => reply@ == ReplyView::AuthOk && final(self)@ == (SessionView {
                    authenticated_as: Some(name),
                    ..old(self)@
                }),
                Ok(None) => reply@ == ReplyView::InvalidCredentials && final(self)@ == old(self)@,
                Err(_) => reply@ == ReplyView::TempAuthFailure && final(self)@ == old(self)@,
            },
    {
        match self.ctx.config.auth.authenticate(user, password, env) {
            Ok(Some(name)) => {
                self.authenticated_as = Some(name);
                Reply::AuthOk
            },
            Ok(None) => Reply::InvalidCredentials,
            Err(_) => Reply::TempAuthFailure,
        }
    }

    /// Answers the PLAIN mechanism; the authorization identity is not used.
    pub fn auth_plain(
        &mut self,
        _authorization_id: &str,
        authentication_id: &str,
        password: &str,
        env: &Env,
    ) -> (reply: Reply)
        ensures
            final(self).ctx == old(self).ctx,
            match old(self).ctx.config.auth.verdict(authentication_id@, password@, *env) {
                Ok(Some(name)) => reply@ == ReplyView::AuthOk && final(self)@ == (SessionView {
                    authenticated_as: Some(name),
                    ..old(self)@
                }),
                Ok(None) => reply@ == ReplyView::InvalidCredentials && final(self)@ == old(self)@,
                Err(_) => reply@ == ReplyView::TempAuthFailure && final(self)@ == old(self)@,
            },
    {
        self.try_auth(authentication_id, password, env)
    }

    /// Answers the LOGIN mechanism.
    pub fn auth_login(&mut self, username: &str, password: &str, env: &Env) -> (reply: Reply)
        ensures
            final(self).ctx == old(self).ctx,
            match old(self).ctx.config.auth.verdict(username@, password@, *env) {
                Ok(Some(name)) => reply@ == ReplyView::AuthOk && final(self)@ == (SessionView {
                    authenticated_as: Some(name),
                    ..old(self)@
                }),
                Ok(None) => reply@ == ReplyView::InvalidCredentials && final(self)@ == old(self)@,
                Err(_) => reply@ == ReplyView::TempAuthFailure && final(self)@ == old(self)@,
            },
    {
        self.try_auth(username, password, env)
    }

    /// Answers HELO and EHLO.
    pub fn helo(&self, ip: IpAddress) -> (reply: Reply)
        ensures
            reply@ == (if self.ctx.admits(ip) {
                ReplyView::Done
            } else {
                ReplyView::Unavailable
            }),
    {
        if is_allowed(&self.ctx.whitelist, ip) {
            Reply::Done
        } else {
            Reply::Unavailable
        }
    }

    /// Answers MAIL. From an address on the whitelist it starts a new envelope.
    pub fn mail(&mut self, ip: IpAddress, from: &str) -> (reply: Reply)
        ensures
            final(self).ctx == old(self).ctx,
            if !old(self).ctx.admits(ip) {
                reply@ == ReplyView::Unavailable && final(self)@ == old(self)@
            } else {
                &&& final(self)@ == (SessionView {
                    envelope_from: from@,
                    recipients: Seq::empty(),
                    data: Seq::empty(),
                    ..old(self)@
                })
                &&& reply@ == (if !old(self).ctx.config.auth.anonymous.enabled && old(
                    self,
                )@.authenticated_as is None {
                    ReplyView::AuthenticationRequired
                } else {
                    ReplyView::Done
                })
            },
    {
        if !is_allowed(&self.ctx.whitelist, ip) {
            return Reply::Unavailable;
        }
        self.envelope_from = from.to_owned();
        self.recipients = Vec::new();
        self.data = Vec::new();
        assert(self@.recipients == Seq::<Seq<char>>::empty());
        if !self.ctx.config.auth.anonymous.enabled && self.authenticated_as.is_none() {
            return Reply::AuthenticationRequired;
        }
        Reply::Done
    }

    /// Answers RCPT.
    pub fn rcpt(&mut self, to: &str) -> (reply: Reply)
        ensures
            final(self).ctx == old(self).ctx,
            final(self)@ == (SessionView { recipients: old(self)@.recipients.push(to@), ..old(self)@
            }),
            reply@ == ReplyView::Done,
    {
        self.recipients.push(to.to_owned());
        assert(self@.recipients == old(self)@.recipients.push(to@));
        Reply::Done
    }

    /// Answers DATA.
    pub fn data_start(&mut self) -> (reply: Reply)
        ensures
            final(self).ctx == old(self).ctx,
            final(self)@ == (SessionView { data: Seq::empty(), ..old(self)@ }),
            reply@ == ReplyView::Done,
    {
        self.data = Vec::new();
        Reply::Done
    }

    /// Takes in a part of the message.
    pub fn data(&mut self, buf: &[u8])
        ensures
            final(self).ctx == old(self).ctx,
            final(self)@ == (SessionView { data: old(self)@.data + buf@, ..old(self)@ }),
    {
        self.data.extend_from_slice(buf);
        assert(self@.data == old(self)@.data + buf@);
    }

    /// The name of the sender of a message with the given subject.
    pub fn sender_name(&self, subject: &str) -> (name: Option<String>)
        ensures
            opt_text(name) == self@.sender_name(self.ctx.config, subject@),
    {
        if let Some(name) = &self.authenticated_as {
            return Some(name.clone());
        }
        if !self.ctx.config.auth.anonymous.enabled {
            return None;
        }
        match &self.ctx.config.auth.anonymous.subject_match {
            Some(pattern) => capture(pattern.as_str(), "name", subject),
            None => None,
        }
    }

    /// The addresses of the recipients.
    fn recipient_addresses(&self) -> (to: Vec<Address>)
        ensures
            crate::message::addresses(to@) == bare_addresses(self@.recipients),
    {
        let mut to: Vec<Address> = Vec::new();
        let mut i: usize = 0;
        while i < self.recipients.len()
            invariant
                i <= self.recipients@.len(),
                crate::message::addresses(to@) == bare_addresses(self@.recipients).take(i as int),
            decreases self.recipients@.len() - i,
        {
            let ghost before = crate::message::addresses(to@);
            let address = Address::new(strip_brackets(self.recipients[i].as_str()));
            let ghost view = address@;
            to.push(address);
            assert(crate::message::addresses(to@) == before.push(view));
            assert(view == bare_addresses(self@.recipients)[i as int]);
            assert(bare_addresses(self@.recipients).take(i + 1) == bare_addresses(
                self@.recipients,
            ).take(i as int).push(view));
            i += 1;
        }
        assert(bare_addresses(self@.recipients).take(self.recipients@.len() as int)
            == bare_addresses(self@.recipients));
        to
    }

    /// The checked mail of a message with the given subject and body, from a sender of the given
    /// name.
    pub fn assemble(&self, subject: String, body: String, name: Option<String>) -> (built: Result<
        NewMail,
        CoreError,
    >)
        ensures
            is_checked(
                built,
                self@.assembled(self.ctx.config, subject@, body@, opt_text(name)),
            ),
    {
        let labelled = match &name {
            Some(name) => self.ctx.config.subject.render(name.as_str(), subject.as_str()),
            None => subject,
        };
        let new = NewMail {
            from: Address::new(strip_brackets(self.envelope_from.as_str())),
            to: self.recipient_addresses(),
            subject: labelled,
            body,
            transport: None,
        };
        match new.validate() {
            Ok(()) => Ok(new),
            Err(e) => Err(e),
        }
    }

    /// The checked mail of the message that was received.
    pub fn build_mail(&self) -> (built: Result<NewMail, CoreError>)
        ensures
            match message_parsed(self@.data) {
                Some(message) => is_checked(built, self@.composed(self.ctx.config, message)),
                None => built matches Err(e) && says_invalid_mail(e, "could not parse message"@),
            },
    {
        let message = match parse_message(&self.data) {
            Some(message) => message,
            None => {
                return Err(CoreError::InvalidMail("could not parse message".to_owned()));
            },
        };
        let subject = match message.subject {
            Some(subject) => subject,
            None => String::new(),
        };
        assert(message.subject is None ==> subject@ == Seq::<char>::empty());
        let body = match message.body {
            Some(body) => body,
            None => read_lossy(&self.data),
        };
        let name = self.sender_name(subject.as_str());
        self.assemble(subject, body, name)
    }

    /// The mails that are to be queued for a mail that was built, one for each of its routes, or
    /// the answer where it is refused.
    pub fn route_built(&self, built: Result<NewMail, CoreError>) -> (mails: Result<Vec<NewMail>, Reply>)
        ensures
            match built {
                Err(e) => mails matches Err(reply) && reply@ == ReplyView::Rejected(e.text()),
                Ok(new) => {
                    let routes = self.ctx.config.routing.decision(new@.from.email, new@.to);
                    match mails {
                        Ok(mails) => routes.len() > 0 && new_mail_views(mails@) == routed(
                            new@,
                            routes,
                        ),
                        Err(reply) => routes.len() == 0 && reply@ == ReplyView::SenderRejected,
                    }
                },
            },
    {
        let new = match built {
            Ok(new) => new,
            Err(e) => {
                return Err(Reply::Rejected(e.message()));
            },
        };
        let routes = self.ctx.config.routing.route(new.from.email.as_str(), &new.to);
        let ghost ways = crate::routing::route_views(routes@);
        assert(ways.len() == routes@.len());
        if routes.is_empty() {
            return Err(Reply::SenderRejected);
        }
        let mut mails: Vec<NewMail> = Vec::new();
        let mut i: usize = 0;
        while i < routes.len()
            invariant
                i <= routes@.len(),
                ways == crate::routing::route_views(routes@),
                new_mail_views(mails@) == routed(new@, ways).take(i as int),
            decreases routes@.len() - i,
        {
            let ghost before = new_mail_views(mails@);
            let mail = NewMail {
                from: new.from.clone(),
                to: crate::message::copy_addresses(&routes[i].recipients),
                subject: new.subject.clone(),
                body: new.body.clone(),
                transport: crate::text::copy_opt(&routes[i].transport),
            };
            let ghost view = mail@;
            mails.push(mail);
            assert(new_mail_views(mails@) == before.push(view));
            assert(view == routed(new@, ways)[i as int]);
            assert(routed(new@, ways).take(i + 1) == routed(new@, ways).take(i as int).push(view));
            i += 1;
        }
        assert(routed(new@, ways).take(routes@.len() as int) == routed(new@, ways));
        Ok(mails)
    }

    /// Answers the end of the message: with the mails that are to be queued, each with an
    /// identifier drawn at random and the time of this call, or with a refusal.
    pub fn data_end(&self) -> (mails: Result<Vec<Mail>, Reply>)
        ensures
            match message_parsed(self@.data) {
                None => mails matches Err(reply) && reply@ == ReplyView::Rejected(
                    "invalid mail: could not parse message"@,
                ),
                Some(message) => {
                    let new = self@.composed(self.ctx.config, message);
                    let routes = self.ctx.config.routing.decision(new.from.email, new.to);
                    match mails {
                        Ok(mails) => new.problem() is None && routes.len() > 0 && are_queued(
                            mails@,
                            routed(new, routes),
                        ),
                        Err(reply) => match new.problem() {
                            Some(detail) => reply@ == ReplyView::Rejected(
                                "invalid mail: "@ + detail,
                            ),
                            None => routes.len() == 0 && reply@ == ReplyView::SenderRejected,
                        },
                    }
                },
            },
    {
        proof {
            reveal_strlit("invalid mail: ");
            reveal_strlit("could not parse message");
            reveal_strlit("invalid mail: could not parse message");
            assert("invalid mail: "@ + "could not parse message"@
                == "invalid mail: could not parse message"@);
        }
        let built = self.build_mail();
        let new = match self.route_built(built) {
            Ok(new) => new,
            Err(reply) => {
                return Err(reply);
            },
        };
        Ok(stamp(new))
    }
}

/// `id` has the version and the variant of a random identifier.
pub open spec fn is_random_id(id: MailId) -> bool {
    (id >> 76) & 0xf == 4 && (id >> 62) & 0x3 == 2
}

/// `t` is a time of the system's clock: not before 1970 and not in a leap second.
pub open spec fn is_clock_time(t: Timestamp) -> bool {
    t.secs() >= 0 && t.nanos() < 1_000_000_000
}

/// `mails` are the payloads `new` as they stand in the queue, with identifiers that were drawn
/// at random, all at the same time of the clock.
pub open spec fn are_queued(mails: Seq<Mail>, new: Seq<NewMailView>) -> bool {
    &&& mails.len() == new.len()
    &&& forall|i: int|
        0 <= i < mails.len() ==> (#[trigger] mails[i])@ == queued(
            new[i],
            mails[0].created_at,
            mails[i].id,
        ) && is_random_id(mails[i].id) && is_clock_time(mails[i].created_at)
}

/// The queued mails of payloads at the time of this call.
fn stamp(new: Vec<NewMail>) -> (mails: Vec<Mail>)
    ensures
        are_queued(mails@, new_mail_views(new@)),
{
    let now = Timestamp::now();
    let mut mails: Vec<Mail> = Vec::new();
    let mut i: usize = 0;
    while i < new.len()
        invariant
            i <= new@.len(),
            mails@.len() == i,
            is_clock_time(now),
            forall|j: int|
                0 <= j < i ==> (#[trigger] mails@[j])@ == queued(
                    new_mail_views(new@)[j],
                    now,
                    mails@[j].id,
                ) && is_random_id(mails@[j].id),
        decreases new@.len() - i,
    {
        let payload = new[i].clone();
        assert(payload@ == new_mail_views(new@)[i as int]);
        let mail = Mail::from_new(payload, now, fresh_id());
        assert(mail@.id == mail.id);
        mails.push(mail);
        i += 1;
    }
    proof {
        assert forall|j: int| 0 <= j < mails@.len() implies (#[trigger] mails@[j]).created_at
            == now by {
            assert(mails@[j]@.created_at == now);
        }
    }
    mails
}

/// The answer to the end of the message once the mails were stored, or could not be.
pub fn stored(outcome: Result<(), CoreError>) -> (reply: Reply)
    ensures
        reply@ == (if outcome is Ok {
            ReplyView::Done
        } else {
            ReplyView::InternalError
        }),
{
    match outcome {
        Ok(()) => Reply::Done,
        Err(_) => Reply::InternalError,
    }
}

/// Where the sender has no name, be it that there is no pattern or that it finds none, the
/// subject stays as it came.
pub proof fn law_unnamed_sender_keeps_subject(
    session: SessionView,
    config: Config,
    subject: Seq<char>,
    body: Option<Seq<char>>,
)
    requires
        session.sender_name(config, subject) is None,
    ensures
        session.composed(config, (Some(subject), body)).subject == subject,
{
}

/// Credentials name the sender whatever the subject says.
pub proof fn law_credentials_name_the_sender(
    session: SessionView,
    config: Config,
    subject: Seq<char>,
    body: Option<Seq<char>>,
    name: Seq<char>,
)
    requires
        session.authenticated_as == Some(name),
    ensures
        session.composed(config, (Some(subject), body)).subject == config.subject.rendered(
            name,
            subject,
        ),
{
}

/// The text between angle brackets, with white space around them or none, is what is left, but
/// for the white space at its ends.
pub proof fn law_brackets_removed(inside: Seq<char>, before: Seq<char>, after: Seq<char>)
    requires
        inside.len() > 0 ==> inside[0] != '<' && inside.last() != '>',
        forall|i: int| 0 <= i < before.len() ==> is_white_space(#[trigger] before[i]),
        forall|i: int| 0 <= i < after.len() ==> is_white_space(#[trigger] after[i]),
    ensures
        bare(before + (seq!['<'] + inside + seq!['>']) + after) == trimmed(inside),
{
    let white = |c: char| is_white_space(c);
    let path = seq!['<'] + inside + seq!['>'];
    assert(!is_white_space('<') && !is_white_space('>'));
    assert(before + path + after == before + (path + after));
    assert((path + after)[0] == '<');
    lemma_drop_leading(before, path + after, white);
    assert(path.last() == '>');
    lemma_drop_trailing(path, after, white);
    assert(trimmed(before + path + after) == path);
    assert(path == seq!['<'] + (inside + seq!['>']));
    assert((inside + seq!['>'])[0] != '<');
    lemma_drop_leading(seq!['<'], inside + seq!['>'], |c: char| c == '<');
    if inside.len() > 0 {
        lemma_drop_trailing(inside, seq!['>'], |c: char| c == '>');
    } else {
        let rest = inside + seq!['>'];
        assert(rest.last() == '>');
        assert(rest.drop_last() == inside);
        assert(drop_trailing(inside, |c: char| c == '>') == inside);
        assert(drop_trailing(rest, |c: char| c == '>') == inside);
    }
}

/// An address without brackets loses the white space around it and nothing else.
pub proof fn law_plain_address_kept(address: Seq<char>, before: Seq<char>, after: Seq<char>)
    requires
        address.len() > 0,
        !is_white_space(address[0]) && address[0] != '<',
        !is_white_space(address.last()) && address.last() != '>',
        forall|i: int| 0 <= i < before.len() ==> is_white_space(#[trigger] before[i]),
        forall|i: int| 0 <= i < after.len() ==> is_white_space(#[trigger] after[i]),
    ensures
        bare(before + address + after) == address,
{
    let white = |c: char| is_white_space(c);
    assert(before + address + after == before + (address + after));
    assert((address + after)[0] == address[0]);
    lemma_drop_leading(before, address + after, white);
    lemma_drop_trailing(address, after, white);
    assert(drop_leading(address, |c: char| c == '<') == address);
    assert(drop_trailing(address, |c: char| c == '>') == address);
    assert(trimmed(address) == address);
}

/// What is left of a text is a part of it and has no white space at its ends.
pub proof fn law_bare_is_a_trimmed_part(raw: Seq<char>)
    ensures
        trimmed(bare(raw)) == bare(raw),
        contains_text(raw, bare(raw)),
{
    let outer = trimmed(raw);
    let opened = drop_leading(outer, |c: char| c == '<');
    let closed = drop_trailing(opened, |c: char| c == '>');
    lemma_trimmed(raw);
    lemma_trimmed(closed);
    lemma_leading_part(outer, |c: char| c == '<');
    lemma_trailing_part(opened, |c: char| c == '>');
    lemma_part_of_part(raw, outer, opened);
    lemma_part_of_part(raw, opened, closed);
    lemma_part_of_part(raw, closed, trimmed(closed));
}

/// A part of a part is a part.
proof fn lemma_part_of_part(whole: Seq<char>, part: Seq<char>, inner: Seq<char>)
    requires
        contains_text(whole, part),
        contains_text(part, inner),
    ensures
        contains_text(whole, inner),
{
    let i = choose|i: int| occurs_at(whole, part, i);
    let j = choose|j: int| occurs_at(part, inner, j);
    assert(whole.subrange(i + j, i + j + inner.len()) == part.subrange(j, j + inner.len())) by {
        assert(part == whole.subrange(i, i + part.len()));
    }
    assert(occurs_at(whole, inner, i + j));
}

/// What is left once leading characters were dropped ends the text and does not start with one
/// of them.
proof fn lemma_leading_part(s: Seq<char>, p: spec_fn(char) -> bool)
    ensures
        contains_text(s, drop_leading(s, p)),
        drop_leading(s, p).len() > 0 ==> !p(drop_leading(s, p)[0]),
    decreases s.len(),
{
    if s.len() > 0 && p(s[0]) {
        lemma_leading_part(s.drop_first(), p);
        assert(s.subrange(1, s.len() as int) == s.drop_first());
        assert(occurs_at(s, s.drop_first(), 1));
        lemma_part_of_part(s, s.drop_first(), drop_leading(s, p));
    } else {
        assert(s.subrange(0, s.len() as int) == s);
        assert(occurs_at(s, s, 0));
    }
}

/// What is left once trailing characters were dropped starts the text and does not end with one
/// of them.
proof fn lemma_trailing_part(s: Seq<char>, p: spec_fn(char) -> bool)
    ensures
        contains_text(s, drop_trailing(s, p)),
        drop_trailing(s, p).len() > 0 ==> !p(drop_trailing(s, p).last()) && drop_trailing(s, p)[0]
            == s[0],
    decreases s.len(),
{
    if s.len() > 0 && p(s.last()) {
        lemma_trailing_part(s.drop_last(), p);
        assert(s.subrange(0, s.len() - 1) == s.drop_last());
        assert(occurs_at(s, s.drop_last(), 0));
        lemma_part_of_part(s, s.drop_last(), drop_trailing(s, p));
    } else {
        assert(s.subrange(0, s.len() as int) == s);
        assert(occurs_at(s, s, 0));
    }
}

/// A trimmed text is a part of the text, and trimming it again changes nothing.
proof fn lemma_trimmed(s: Seq<char>)
    ensures
        contains_text(s, trimmed(s)),
        trimmed(trimmed(s)) == trimmed(s),
{
    let white = |c: char| is_white_space(c);
    let opened = drop_leading(s, white);
    lemma_leading_part(s, white);
    lemma_trailing_part(opened, white);
    lemma_part_of_part(s, opened, trimmed(s));
    let t = trimmed(s);
    assert(drop_leading(t, white) == t);
    assert(drop_trailing(t, white) == t);
}

proof fn lemma_drop_leading(lead: Seq<char>, rest: Seq<char>, p: spec_fn(char) -> bool)
    requires
        forall|i: int| 0 <= i < lead.len() ==> p(#[trigger] lead[i]),
        rest.len() > 0 && !p(rest[0]),
    ensures
        drop_leading(lead + rest, p) == rest,
    decreases lead.len(),
{
    if lead.len() > 0 {
        assert((lead + rest)[0] == lead[0]);
        assert((lead + rest).drop_first() == lead.drop_first() + rest);
        lemma_drop_leading(lead.drop_first(), rest, p);
    } else {
        assert(lead + rest == rest);
    }
}

proof fn lemma_drop_trailing(rest: Seq<char>, trail: Seq<char>, p: spec_fn(char) -> bool)
    requires
        forall|i: int| 0 <= i < trail.len() ==> p(#[trigger] trail[i]),
        rest.len() > 0 && !p(rest.last()),
    ensures
        drop_trailing(rest + trail, p) == rest,
    decreases trail.len(),
{
    if trail.len() > 0 {
        assert((rest + trail).last() == trail.last());
        assert((rest + trail).drop_last() == rest + trail.drop_last());
        lemma_drop_trailing(rest, trail.drop_last(), p);
    } else {
        assert(rest + trail == rest);
    }
}

/// The entries that a mail becomes on its routes differ in transport and recipients alone: every
/// one has the sender, the subject and the body of the mail.
pub proof fn law_routes_keep_the_content(mail: NewMailView, routes: Seq<RouteView>)
    ensures
        routed(mail, routes).len() == routes.len(),
        forall|i: int|
            0 <= i < routes.len() ==> {
                let entry = #[trigger] routed(mail, routes)[i];
                &&& entry.from == mail.from
                &&& entry.subject == mail.subject
                &&& entry.body == mail.body
                &&& entry.transport == routes[i].transport
                &&& entry.to == routes[i].recipients
            },
{
}

/// The mail of a message comes from the address of the envelope and goes to every recipient of
/// the envelope, in their order, each without brackets and display name. Its body is the text of
/// the message, or all of its data where there is no text, and it names no transport.
pub proof fn law_mail_of_a_message(
    session: SessionView,
    config: Config,
    subject: Option<Seq<char>>,
    body: Option<Seq<char>>,
)
    ensures
        ({
            let mail = session.composed(config, (subject, body));
            &&& mail.from.email == bare(session.envelope_from) && mail.from.name is None
            &&& mail.to.len() == session.recipients.len()
            &&& forall|i: int|
                0 <= i < session.recipients.len() ==> (#[trigger] mail.to[i]).email == bare(
                    session.recipients[i],
                ) && mail.to[i].name is None
            &&& body matches Some(text) ==> mail.body == text
            &&& body is None ==> mail.body == lossy_text(session.data)
            &&& mail.transport is None
        }),
{
}

/// The subject of the mail is the subject of the message, which is empty where there is none,
/// with the label of the sender where the sender has a name.
pub proof fn law_subject_of_a_message(
    session: SessionView,
    config: Config,
    subject: Option<Seq<char>>,
    body: Option<Seq<char>>,
)
    ensures
        ({
            let mail = session.composed(config, (subject, body));
            let plain = match subject {
                Some(subject) => subject,
                None => Seq::empty(),
            };
            &&& session.sender_name(config, plain) is None ==> mail.subject == plain
            &&& session.sender_name(config, plain) matches Some(name) ==> mail.subject
                == config.subject.rendered(name, plain)
        }),
{
}

/// The credentials name the sender. Without them the pattern does in anonymous mode, by its group
/// `name`, and nothing does otherwise.
pub proof fn law_who_the_sender_is(session: SessionView, config: Config, subject: Seq<char>)
    ensures
        session.authenticated_as matches Some(name) ==> session.sender_name(config, subject)
            == Some(name),
        session.authenticated_as is None && !config.auth.anonymous.enabled ==> session.sender_name(
            config,
            subject,
        ) is None,
        session.authenticated_as is None && config.auth.anonymous.subject_match is None
            ==> session.sender_name(config, subject) is None,
        session.authenticated_as is None && config.auth.anonymous.enabled
            && config.auth.anonymous.subject_match is Some ==> session.sender_name(config, subject)
            == captured(config.auth.anonymous.subject_match->0@, "name"@, subject),
{
}

/// An address may submit mail exactly when it lies in one of the networks of the whitelist.
pub proof fn law_whitelist_decides_who_submits(ctx: Context, ip: IpAddress)
    ensures
        ctx.admits(ip) <==> exists|i: int|
            0 <= i < ctx.whitelist@.len() && (#[trigger] ctx.whitelist@[i])@.covers(ip),
{
    let nets = network_views(ctx.whitelist@);
    if ctx.admits(ip) {
        let i = choose|i: int| 0 <= i < nets.len() && (#[trigger] nets[i]).covers(ip);
        assert(ctx.whitelist@[i]@.covers(ip));
    }
    if exists|i: int| 0 <= i < ctx.whitelist@.len() && (#[trigger] ctx.whitelist@[i])@.covers(ip) {
        let i = choose|i: int|
            0 <= i < ctx.whitelist@.len() && (#[trigger] ctx.whitelist@[i])@.covers(ip);
        assert(nets[i].covers(ip));
    }
}

/// The code of a reply tells a client whether the command succeeded, may be repeated, or is
/// refused for good.
pub proof fn law_codes_tell_what_to_do(reply: ReplyView)
    ensures
        reply is Done || reply is AuthOk <==> 200 <= reply.smtp_code() < 300,
        reply is Unavailable || reply is InternalError || reply is TempAuthFailure <==> 400
            <= reply.smtp_code() < 500,
        reply is AuthenticationRequired || reply is InvalidCredentials || reply is SenderRejected
            || reply is Rejected <==> 500 <= reply.smtp_code() < 600,
{
}

/// Every mail that is queued for a message says what its entry says and is new; all of them were
/// created at the same time.
pub proof fn law_queued_mails_say_what_their_entries_say(mails: Seq<Mail>, new: Seq<NewMailView>)
    requires
        are_queued(mails, new),
    ensures
        mails.len() == new.len(),
        forall|i: int|
            0 <= i < mails.len() ==> {
                let mail = (#[trigger] mails[i])@;
                &&& mail.from == new[i].from
                &&& mail.to == new[i].to
                &&& mail.subject == new[i].subject
                &&& mail.body == new[i].body
                &&& mail.transport == new[i].transport
                &&& mail.status is Pending
                &&& mail.attempts == 0
                &&& mail.last_error is None
                &&& mail.created_at == mails[0].created_at
                &&& mail.next_attempt_at == mail.created_at
                &&& mail.created_at.secs() >= 0
            },
{
}

/// The configuration of a connection.
spec fn settings(handler: &RelayHandler) -> Config {
    handler.ctx.config
}

/// Every mail that a built mail becomes has its sender, its subject and its body.
pub proof fn law_entries_keep_the_built_mail(
    handler: &RelayHandler,
    new: NewMail,
    mails: Result<Vec<NewMail>, Reply>,
)
    requires
        call_ensures(RelayHandler::route_built, (handler, Ok(new)), mails),
    ensures
        mails matches Ok(list) ==> list@.len() > 0 && forall|i: int|
            0 <= i < list@.len() ==> {
                &&& (#[trigger] list@[i]).from@ == new.from@
                &&& list@[i].subject@ == new.subject@
                &&& list@[i].body@ == new.body@
            },
        mails matches Err(reply) ==> reply is SenderRejected,
{
    let routes = settings(handler).routing.decision(new@.from.email, new@.to);
    law_routes_keep_the_content(new@, routes);
    if let Ok(list) = mails {
        let views = new_mail_views(list@);
        assert(views == routed(new@, routes));
        assert forall|i: int| 0 <= i < list@.len() implies {
            &&& (#[trigger] list@[i]).from@ == new.from@
            &&& list@[i].subject@ == new.subject@
            &&& list@[i].body@ == new.body@
        } by {
            assert(views[i] == list@[i]@);
            assert(views[i].body == new@.body && views[i].from == new@.from && views[i].subject
                == new@.subject);
        }
    }
}

/// Without routing rules a mail that was built is queued as it is.
pub proof fn law_unrouted_mail_is_queued_as_it_is(
    handler: &RelayHandler,
    new: NewMail,
    mails: Result<Vec<NewMail>, Reply>,
)
    requires
        call_ensures(RelayHandler::route_built, (handler, Ok(new)), mails),
        handler.ctx.config.routing.default is None,
        handler.ctx.config.routing.senders@.len() == 0,
    ensures
        mails matches Ok(list) && list@.len() == 1 && {
            &&& list@[0].from@ == new.from@
            &&& crate::message::addresses(list@[0].to@) == crate::message::addresses(new.to@)
            &&& list@[0].subject@ == new.subject@
            &&& list@[0].body@ == new.body@
            &&& list@[0].transport is None
        },
{
    let routes = settings(handler).routing.decision(new@.from.email, new@.to);
    law_without_rules_mail_stays_as_it_is(
        settings(handler).routing,
        new@.from.email,
        new@.to,
    );
    law_routes_keep_the_content(new@, routes);
    if let Ok(list) = mails {
        let views = new_mail_views(list@);
        assert(views.len() == list@.len());
        assert(views[0] == list@[0]@);
    }
}

/// The mails that are queued at the end of a message come from the sender of the envelope and say
/// what the message says.
pub proof fn law_message_is_queued_with_its_content(
    handler: &RelayHandler,
    mails: Result<Vec<Mail>, Reply>,
    subject: Seq<char>,
    body: Seq<char>,
)
    requires
        call_ensures(RelayHandler::data_end, (handler,), mails),
        message_parsed(handler.data@) == Some((Some(subject), Some(body))),
    ensures
        mails matches Ok(list) ==> list@.len() > 0 && forall|i: int|
            0 <= i < list@.len() ==> {
                let mail = (#[trigger] list@[i]);
                &&& mail.from.email@ == bare(handler.envelope_from@)
                &&& mail.body@ == body
                &&& mail.status is Pending
                &&& handler@.sender_name(handler.ctx.config, subject) is None ==> mail.subject@
                    == subject
            },
{
    let new = handler@.composed(settings(handler), (Some(subject), Some(body)));
    let routes = settings(handler).routing.decision(new.from.email, new.to);
    law_mail_of_a_message(handler@, settings(handler), Some(subject), Some(body));
    law_subject_of_a_message(handler@, settings(handler), Some(subject), Some(body));
    law_routes_keep_the_content(new, routes);
    if let Ok(list) = mails {
        law_queued_mails_say_what_their_entries_say(list@, routed(new, routes));
        assert forall|i: int| 0 <= i < list@.len() implies {
            let mail = (#[trigger] list@[i]);
            &&& mail.from.email@ == bare(handler.envelope_from@)
            &&& mail.body@ == body
            &&& mail.status is Pending
            &&& handler@.sender_name(handler.ctx.config, subject) is None ==> mail.subject@
                == subject
        } by {
            let entry = routed(new, routes)[i];
            assert(list@[i]@.from == entry.from && list@[i]@.body == entry.body);
            assert(list@[i]@.from.email == list@[i].from.email@);
            assert(list@[i]@.body == list@[i].body@);
        }
    }
}

/// The view of a connection holds what was said on it.
pub proof fn law_view_of_a_connection(handler: RelayHandler)
    ensures
        handler.authenticated_as is None <==> handler@.authenticated_as is None,
        handler.authenticated_as matches Some(name) ==> handler@.authenticated_as == Some(name@),
        handler@.envelope_from == handler.envelope_from@,
        handler@.recipients.len() == handler.recipients@.len(),
        forall|i: int|
            0 <= i < handler.recipients@.len() ==> #[trigger] handler@.recipients[i]
                == handler.recipients@[i]@,
        handler@.data == handler.data@,
{
}

/// The mail that was built is accepted exactly when nothing is wrong with it, and is then the mail
/// of the message.
pub proof fn law_built_mail_is_that_of_the_message(
    handler: &RelayHandler,
    built: Result<NewMail, CoreError>,
    subject: Option<Seq<char>>,
    body: Option<Seq<char>>,
)
    requires
        call_ensures(RelayHandler::build_mail, (handler,), built),
        message_parsed(handler.data@) == Some((subject, body)),
    ensures
        built is Ok <==> handler@.composed(handler.ctx.config, (subject, body)).problem() is None,
        built matches Ok(new) ==> {
            &&& new@ == handler@.composed(handler.ctx.config, (subject, body))
            &&& new.from.email@ == bare(handler.envelope_from@)
            &&& new.to@.len() == handler.recipients@.len()
            &&& body matches Some(text) ==> new.body@ == text
        },
        built matches Err(e) ==> e is InvalidMail,
{
    law_mail_of_a_message(handler@, settings(handler), subject, body);
    if let Ok(new) = built {
        assert(new@.to.len() == new.to@.len());
        assert(new@.from.email == new.from.email@);
        assert(new@.body == new.body@);
    }
}

/// A client is let in exactly where one of the networks of the whitelist holds its address.
pub proof fn law_greeting_goes_by_the_whitelist(handler: &RelayHandler, ip: IpAddress, reply: Reply)
    requires
        call_ensures(RelayHandler::helo, (handler, ip), reply),
    ensures
        reply is Done <==> exists|i: int|
            0 <= i < handler.ctx.whitelist@.len() && (#[trigger] handler.ctx.whitelist@[i])@.covers(
                ip,
            ),
        !(reply is Done) ==> reply is Unavailable,
{
    law_whitelist_decides_who_submits(shared(handler), ip);
}

/// What a connection shares with the others.
spec fn shared(handler: &RelayHandler) -> Context {
    *handler.ctx
}

/// From an address on the whitelist MAIL starts a new envelope: with the sender that it names,
/// no recipients and no data, and with the credentials as they were. From any other it changes
/// nothing. It succeeds where the address is on the list and the client has authenticated or need
/// not.
pub proof fn law_mail_starts_a_new_envelope(ip: IpAddress, from: &str, reply: Reply)
    ensures
        forall|h: &mut RelayHandler| #[trigger]
            call_ensures(RelayHandler::mail, (h, ip, from), reply) ==> {
                &&& final(h).ctx == (*h).ctx
                &&& final(h)@.authenticated_as == (*h)@.authenticated_as
                &&& (*h).ctx.admits(ip) ==> {
                    &&& final(h)@.envelope_from == from@
                    &&& final(h)@.recipients.len() == 0
                    &&& final(h)@.data.len() == 0
                    &&& reply is Done || reply is AuthenticationRequired
                    &&& reply is Done <==> (*h).ctx.config.auth.anonymous.enabled || (
                    *h)@.authenticated_as is Some
                }
                &&& !(*h).ctx.admits(ip) ==> reply is Unavailable && final(h)@ == (*h)@
            },
{
}

/// RCPT adds its recipient behind those before it and changes nothing else.
pub proof fn law_rcpt_adds_a_recipient(to: &str, reply: Reply)
    ensures
        forall|h: &mut RelayHandler| #[trigger]
            call_ensures(RelayHandler::rcpt, (h, to), reply) ==> {
                &&& reply is Done
                &&& final(h).ctx == (*h).ctx
                &&& final(h)@.recipients.len() == (*h)@.recipients.len() + 1
                &&& final(h)@.recipients.last() == to@
                &&& final(h)@.recipients.drop_last() == (*h)@.recipients
                &&& final(h)@.envelope_from == (*h)@.envelope_from
                &&& final(h)@.authenticated_as == (*h)@.authenticated_as
                &&& final(h)@.data == (*h)@.data
            },
{
    assert forall|h: &mut RelayHandler| #[trigger]
        call_ensures(RelayHandler::rcpt, (h, to), reply) implies final(h)@.recipients.drop_last()
        == (*h)@.recipients by {
        assert((*h)@.recipients.push(to@).drop_last() == (*h)@.recipients);
    }
}

/// The parts of a message are put together in the order in which they come, from none on.
pub proof fn law_data_is_put_together(buf: &[u8], reply: Reply)
    ensures
        forall|h: &mut RelayHandler| #[trigger]
            call_ensures(RelayHandler::data_start, (h,), reply) ==> final(h)@.data.len() == 0
                && final(h)@.recipients == (*h)@.recipients && final(h)@.envelope_from
                == (*h)@.envelope_from && final(h)@.authenticated_as == (*h)@.authenticated_as,
        forall|h: &mut RelayHandler| #[trigger]
            call_ensures(RelayHandler::data, (h, buf), ()) ==> {
                let n = (*h)@.data.len() as int;
                &&& final(h)@.data.len() == n + buf@.len()
                &&& final(h)@.data.take(n) == (*h)@.data
                &&& final(h)@.data.skip(n) == buf@
                &&& final(h)@.recipients == (*h)@.recipients
                &&& final(h)@.envelope_from == (*h)@.envelope_from
            },
{
    assert forall|h: &mut RelayHandler| #[trigger]
        call_ensures(RelayHandler::data, (h, buf), ()) implies final(h)@.data.take(
        (*h)@.data.len() as int,
    ) == (*h)@.data && final(h)@.data.skip((*h)@.data.len() as int) == buf@ by {
        let old_data = (*h)@.data;
        assert((old_data + buf@).take(old_data.len() as int) == old_data);
        assert((old_data + buf@).skip(old_data.len() as int) == buf@);
    }
}

/// Credentials that are accepted name the client from then on; any others leave it as it was.
/// Both mechanisms decide by the user name and the password alone.
pub proof fn law_credentials_are_remembered(
    authorization: &str,
    user: &str,
    password: &str,
    env: &Env,
    reply: Reply,
)
    ensures
        forall|h: &mut RelayHandler| #[trigger]
            call_ensures(RelayHandler::auth_login, (h, user, password, env), reply) ==> {
                let verdict = (*h).ctx.config.auth.verdict(user@, password@, *env);
                &&& reply is AuthOk <==> verdict is Ok && verdict->Ok_0 is Some
                &&& reply is AuthOk ==> final(h)@.authenticated_as == verdict->Ok_0
                &&& !(reply is AuthOk) ==> final(h)@ == (*h)@
                &&& verdict is Err ==> reply is TempAuthFailure
                &&& verdict is Ok && verdict->Ok_0 is None ==> reply is InvalidCredentials
            },
        forall|h: &mut RelayHandler| #[trigger]
            call_ensures(
                RelayHandler::auth_plain,
                (h, authorization, user, password, env),
                reply,
            ) ==> {
                let verdict = (*h).ctx.config.auth.verdict(user@, password@, *env);
                &&& reply is AuthOk <==> verdict is Ok && verdict->Ok_0 is Some
                &&& reply is AuthOk ==> final(h)@.authenticated_as == verdict->Ok_0
                &&& !(reply is AuthOk) ==> final(h)@ == (*h)@
                &&& verdict is Err ==> reply is TempAuthFailure
                &&& verdict is Ok && verdict->Ok_0 is None ==> reply is InvalidCredentials
            },
{
}

/// However many angle brackets stand around an address, all of them are removed.
pub proof fn law_all_brackets_are_removed(open: Seq<char>, inside: Seq<char>, close: Seq<char>)
    requires
        open.len() > 0 && close.len() > 0 && inside.len() > 0,
        forall|i: int| 0 <= i < open.len() ==> #[trigger] open[i] == '<',
        forall|i: int| 0 <= i < close.len() ==> #[trigger] close[i] == '>',
        inside[0] != '<' && inside.last() != '>',
    ensures
        bare(open + inside + close) == trimmed(inside),
{
    let white = |c: char| is_white_space(c);
    let path = open + inside + close;
    assert(path[0] == open[0] && path.last() == close.last());
    assert(!is_white_space('<') && !is_white_space('>'));
    assert(drop_leading(path, white) == path);
    assert(drop_trailing(path, white) == path);
    assert(path == open + (inside + close));
    assert((inside + close)[0] == inside[0]);
    lemma_drop_leading(open, inside + close, |c: char| c == '<');
    lemma_drop_trailing(inside, close, |c: char| c == '>');
}

/// A mail that could not be built is refused with the text of what is wrong with it, and a message
/// whose mails could not be stored is not accepted.
pub proof fn law_refusals_are_answered(
    handler: &RelayHandler,
    e: CoreError,
    mails: Result<Vec<NewMail>, Reply>,
    outcome: Result<(), CoreError>,
    reply: Reply,
)
    requires
        call_ensures(RelayHandler::route_built, (handler, Err(e)), mails),
        call_ensures(stored, (outcome,), reply),
    ensures
        mails matches Err(refusal) && (refusal matches Reply::Rejected(reason) && reason@
            == e.text()),
        reply is Done <==> outcome is Ok,
        reply is InternalError <==> outcome is Err,
{
}

/// The text of a refused mail ends with the reason.
pub proof fn law_refusal_gives_the_reason(reason: Seq<char>)
    ensures
        ({
            let text = ReplyView::Rejected(reason).smtp_text();
            text.len() >= reason.len() && text.skip(text.len() - reason.len()) == reason
        }),
{
    let text = "rejected: "@ + reason;
    assert(text.skip(text.len() - reason.len()) == reason);
}

} // verus!
