//! Configuration model and its checks.
//!
//! Secrets are never part of the configuration: a field such as `password_env` holds the name
//! of an environment variable, whose value is taken from an [`Env`] when it is needed.

use vstd::prelude::*;

use crate::env::Env;
use crate::error::ConfigError;
use crate::routing::RoutingConfig;
use crate::table::TextMap;
use crate::text::{contains, join, replace, same_text, strip_ending, trim};

verus! {

use crate::error::{says_invalid, says_missing};
use crate::table::{
    ascending, inserted, law_lookup_after_insert, lemma_position_of, lookup, position_of,
};
use crate::text::{
    contains_text, ends_with_text, is_white_space, law_blank_text_is_trimmed_away,
    law_parts_are_found_where_they_stand, law_replaced_where_it_stands, occurs_at, opt_text,
    replaced, text_less, text_less_irreflexive, text_less_transitive, trimmed,
};

/// The whole configuration.
#[derive(Debug, Clone)]
pub struct Config {
    /// Mail transport settings.
    pub mail: MailConfig,
    /// Queue settings.
    pub queue: QueueConfig,
    /// Logging settings.
    pub logging: LoggingConfig,
    /// Dispatcher settings.
    pub dispatcher: DispatcherSettings,
    /// Subject prefix settings.
    pub subject: SubjectConfig,
    /// Network security settings.
    pub security: SecurityConfig,
    /// Authentication and sender identification settings.
    pub auth: AuthConfig,
    /// Routing rules.
    pub routing: RoutingConfig,
    /// Settings of each plugin, by plugin name.
    pub plugins: TextMap<TextMap<String>>,
    /// Ingress settings.
    pub ingress: IngressConfig,
}

/// Ingress (incoming mail) settings.
#[derive(Debug, Clone)]
pub struct IngressConfig {
    /// SMTP listener; it is enabled where it is present.
    pub smtp: Option<SmtpIngressConfig>,
}

/// SMTP listener settings. The relay acts as an SMTP server on the LAN.
#[derive(Debug, Clone)]
pub struct SmtpIngressConfig {
    /// Socket address to listen on.
    pub bind: String,
    /// Host name announced in the greeting.
    pub hostname: String,
}

/// Mail transport settings.
#[derive(Debug, Clone)]
pub struct MailConfig {
    /// SMTP transport, if configured.
    pub smtp: Option<SmtpConfig>,
    /// Transport of mails that do not name one.
    pub default_transport: Option<String>,
}

/// SMTP connection settings.
#[derive(Debug, Clone)]
pub struct SmtpConfig {
    /// SMTP host.
    pub host: String,
    /// SMTP port.
    pub port: u16,
    /// Login user name.
    pub username: String,
    /// Name of the environment variable that holds the password.
    pub password_env: String,
}

/// Queue settings.
#[derive(Debug, Clone)]
pub struct QueueConfig {
    /// Path or URL of the database.
    pub database: String,
}

/// Logging settings.
#[derive(Debug, Clone)]
pub struct LoggingConfig {
    /// Log level: trace, debug, info, warn or error.
    pub level: String,
}

/// Settings of the background delivery loop. Times are in seconds.
#[derive(Debug, Clone)]
pub struct DispatcherSettings {
    /// Mails fetched per poll.
    pub batch_size: u32,
    /// Parallel deliveries.
    pub concurrency: usize,
    /// Delay between polls.
    pub poll_interval_secs: u64,
    /// Age at which a mail in delivery is taken up again.
    pub sending_lease_secs: u64,
    /// Attempts before a mail is buried as dead.
    pub max_attempts: u32,
    /// Delay before the first retry.
    pub retry_base_secs: u64,
    /// Upper bound of the retry delay.
    pub retry_max_secs: u64,
}

/// Subject prefix settings. A format holds the placeholders `%name%` (the sender) and
/// `%original%` (the incoming subject).
#[derive(Debug, Clone)]
pub struct SubjectConfig {
    /// Format applied to every sender without one of its own.
    pub format: String,
    /// Formats of single senders, by sender name.
    pub senders: TextMap<SenderSubject>,
}

/// Subject format of one sender.
#[derive(Debug, Clone)]
pub struct SenderSubject {
    /// Format string of this sender.
    pub format: String,
}

/// Network security settings.
#[derive(Debug, Clone)]
pub struct SecurityConfig {
    /// Allowed source addresses and CIDR ranges. Where it is empty nothing is allowed.
    pub ip_whitelist: Vec<String>,
}

/// Authentication and sender identification settings.
#[derive(Debug, Clone)]
pub struct AuthConfig {
    /// Anonymous submission.
    pub anonymous: AnonymousAuth,
    /// Fixed credentials, by service name.
    pub services: TextMap<ServiceAuth>,
    /// Self-registration from the supplied credentials.
    pub self_register: SelfRegisterAuth,
}

/// Anonymous mode settings.
#[derive(Debug, Clone)]
pub struct AnonymousAuth {
    /// Whether anonymous submission is allowed.
    pub enabled: bool,
    /// Pattern that takes the sender name from the subject.
    pub subject_match: Option<String>,
}

/// Fixed credentials of a known service.
#[derive(Debug, Clone)]
pub struct ServiceAuth {
    /// Login user name of the service.
    pub username: String,
    /// Name of the environment variable that holds the password.
    pub password_env: String,
}

/// Self-registration settings.
#[derive(Debug, Clone)]
pub struct SelfRegisterAuth {
    /// Whether unknown credentials may register a new sender.
    pub enabled: bool,
}

/// The address that the SMTP listener binds to where none is configured.
pub fn default_ingress_bind() -> (s: String)
    ensures
        s@ == "127.0.0.1:2525"@,
{
    "127.0.0.1:2525".to_owned()
}

/// The host name of the SMTP listener where none is configured.
pub fn default_ingress_hostname() -> (s: String)
    ensures
        s@ == "oxid-relay"@,
{
    "oxid-relay".to_owned()
}

/// The database where none is configured.
pub fn default_database() -> (s: String)
    ensures
        s@ == "queue.db"@,
{
    "queue.db".to_owned()
}

/// The log level where none is configured.
pub fn default_level() -> (s: String)
    ensures
        s@ == "info"@,
{
    "info".to_owned()
}

/// The subject format where none is configured.
pub fn default_subject_format() -> (s: String)
    ensures
        s@ == "[Abs: %name%] %original%"@,
{
    "[Abs: %name%] %original%".to_owned()
}

impl Default for QueueConfig {
    fn default() -> (c: Self)
        ensures
            c.database@ == "queue.db"@,
    {
        QueueConfig { database: default_database() }
    }
}

impl Default for LoggingConfig {
    fn default() -> (c: Self)
        ensures
            c.level@ == "info"@,
    {
        LoggingConfig { level: default_level() }
    }
}

impl Default for DispatcherSettings {
    fn default() -> (c: Self)
        ensures
            c == (DispatcherSettings {
                batch_size: 64,
                concurrency: 8,
                poll_interval_secs: 5,
                sending_lease_secs: 120,
                max_attempts: 5,
                retry_base_secs: 30,
                retry_max_secs: 3600,
            }),
    {
        DispatcherSettings {
            batch_size: 64,
            concurrency: 8,
            poll_interval_secs: 5,
            sending_lease_secs: 120,
            max_attempts: 5,
            retry_base_secs: 30,
            retry_max_secs: 3600,
        }
    }
}

impl Default for SubjectConfig {
    fn default() -> (c: Self)
        ensures
            c.format@ == "[Abs: %name%] %original%"@,
            c.senders@.len() == 0,
    {
        SubjectConfig { format: default_subject_format(), senders: TextMap::new() }
    }
}

impl Default for SmtpIngressConfig {
    fn default() -> (c: Self)
        ensures
            c.bind@ == "127.0.0.1:2525"@,
            c.hostname@ == "oxid-relay"@,
    {
        SmtpIngressConfig { bind: default_ingress_bind(), hostname: default_ingress_hostname() }
    }
}

impl Default for Config {
    fn default() -> (c: Self)
        ensures
            c.mail.smtp is None,
            c.mail.default_transport is None,
            c.queue.database@ == "queue.db"@,
            c.logging.level@ == "info"@,
            c.dispatcher == (DispatcherSettings {
                batch_size: 64,
                concurrency: 8,
                poll_interval_secs: 5,
                sending_lease_secs: 120,
                max_attempts: 5,
                retry_base_secs: 30,
                retry_max_secs: 3600,
            }),
            c.subject.format@ == "[Abs: %name%] %original%"@,
            c.subject.senders@.len() == 0,
            c.security.ip_whitelist@.len() == 0,
            !c.auth.anonymous.enabled,
            c.auth.anonymous.subject_match is None,
            c.auth.services@.len() == 0,
            !c.auth.self_register.enabled,
            !c.routing.active(),
            c.plugins@.len() == 0,
            c.ingress.smtp is None,
            c.problem() is None,
    {
        proof {
            reveal_strlit("queue.db");
            reveal_strlit("%original%");
            reveal_strlit("[Abs: %name%] %original%");
            assert("queue.db"@[0] == 'q' && "queue.db"@.last() == 'b');
            let format = "[Abs: %name%] %original%"@;
            assert(format.subrange(14, 24) == "%original%"@);
            assert(occurs_at(format, "%original%"@, 14));
        }
        Config {
            mail: MailConfig { smtp: None, default_transport: None },
            queue: QueueConfig::default(),
            logging: LoggingConfig::default(),
            dispatcher: DispatcherSettings::default(),
            subject: SubjectConfig::default(),
            security: SecurityConfig { ip_whitelist: Vec::new() },
            auth: AuthConfig {
                anonymous: AnonymousAuth { enabled: false, subject_match: None },
                services: TextMap::new(),
                self_register: SelfRegisterAuth { enabled: false },
            },
            routing: RoutingConfig::default(),
            plugins: TextMap::new(),
            ingress: IngressConfig { smtp: None },
        }
    }
}

/// `level` is one of the log levels.
pub open spec fn is_level(level: Seq<char>) -> bool {
    ||| level == "trace"@
    ||| level == "debug"@
    ||| level == "info"@
    ||| level == "warn"@
    ||| level == "error"@
}

/// The position of the first sender from `from` on whose format drops the original subject;
/// the number of senders where there is none.
pub open spec fn first_lossy(senders: Seq<(Seq<char>, SenderSubject)>, from: int) -> int
    decreases senders.len() - from,
{
    if from >= senders.len() {
        senders.len() as int
    } else if !contains_text(senders[from].1.format@, "%original%"@) {
        from
    } else {
        first_lossy(senders, from + 1)
    }
}

/// The settings `raw` with every secret resolved, in the order of the keys, or the name of the
/// first variable that is not set. A key that ends in `_env` names a secret: its value names a
/// variable, whose value is stored under the key without that ending.
pub open spec fn resolved(
    raw: Seq<(Seq<char>, Seq<char>)>,
    env: spec_fn(Seq<char>) -> Option<Seq<char>>,
) -> Result<Seq<(Seq<char>, Seq<char>)>, Seq<char>>
    decreases raw.len(),
{
    if raw.len() == 0 {
        Ok(Seq::empty())
    } else {
        match resolved(raw.drop_last(), env) {
            Err(var) => Err(var),
            Ok(done) => {
                let (key, value) = raw.last();
                if ends_with_text(key, "_env"@) {
                    match env(value) {
                        Some(secret) => Ok(inserted(done, key.take(key.len() - 4), secret)),
                        None => Err(value),
                    }
                } else {
                    Ok(inserted(done, key, value))
                }
            },
        }
    }
}

/// The entries of a map of strings, with the values as texts.
pub open spec fn texts(entries: Seq<(Seq<char>, String)>) -> Seq<(Seq<char>, Seq<char>)> {
    entries.map_values(|e: (Seq<char>, String)| (e.0, e.1@))
}

proof fn lemma_texts_inserted(entries: Seq<(Seq<char>, String)>, key: Seq<char>, value: String)
    ensures
        texts(inserted(entries, key, value)) == inserted(texts(entries), key, value@),
{
    lemma_texts_rank(entries, key, 0);
    crate::table::lemma_rank_of(entries, key, 0);
    let i = crate::table::rank_of(entries, key, 0);
    if i < entries.len() && entries[i].0 == key {
        assert(texts(inserted(entries, key, value)) == texts(entries).update(i, (key, value@)));
    } else {
        assert(texts(inserted(entries, key, value)) == texts(entries).insert(i, (key, value@)));
    }
}

proof fn lemma_texts_rank(entries: Seq<(Seq<char>, String)>, key: Seq<char>, from: int)
    requires
        0 <= from <= entries.len(),
    ensures
        crate::table::rank_of(texts(entries), key, from) == crate::table::rank_of(
            entries,
            key,
            from,
        ),
    decreases entries.len() - from,
{
    if from < entries.len() {
        assert(texts(entries)[from].0 == entries[from].0);
        lemma_texts_rank(entries, key, from + 1);
    }
}

proof fn lemma_resolved_stays_missing(
    raw: Seq<(Seq<char>, Seq<char>)>,
    n: int,
    env: spec_fn(Seq<char>) -> Option<Seq<char>>,
)
    requires
        0 <= n <= raw.len(),
        resolved(raw.take(n), env) is Err,
    ensures
        resolved(raw, env) == resolved(raw.take(n), env),
    decreases raw.len() - n,
{
    if n < raw.len() {
        assert(raw.take(n + 1).drop_last() == raw.take(n));
        lemma_resolved_stays_missing(raw, n + 1, env);
    } else {
        assert(raw.take(n) == raw);
    }
}

impl Config {
    /// What is wrong with the configuration: the first of the checks that fails.
    pub open spec fn problem(self) -> Option<Seq<char>> {
        if trimmed(self.queue.database@).len() == 0 {
            Some("queue.database is empty"@)
        } else if !is_level(self.logging.level@) {
            Some(
                "unknown logging.level '"@ + self.logging.level@
                    + "', expected one of [\"trace\", \"debug\", \"info\", \"warn\", \"error\"]"@,
            )
        } else if self.mail.smtp matches Some(smtp) && trimmed(smtp.host@).len() == 0 {
            Some("mail.smtp.host is empty"@)
        } else if self.mail.smtp matches Some(smtp) && smtp.port == 0 {
            Some("mail.smtp.port must be non-zero"@)
        } else if !contains_text(self.subject.format@, "%original%"@) {
            Some("subject.format must contain %original%"@)
        } else {
            let i = first_lossy(self.subject.senders@, 0);
            if i < self.subject.senders@.len() {
                Some(
                    "subject.senders.\""@ + self.subject.senders@[i].0
                        + "\".format must contain %original%"@,
                )
            } else {
                None
            }
        }
    }

    /// Checks what the types do not guarantee.
    pub fn validate(&self) -> (result: Result<(), ConfigError>)
        ensures
            match result {
                Ok(()) => self.problem() is None,
                Err(e) => self.problem() matches Some(detail) && says_invalid(e, detail),
            },
    {
        if trim(self.queue.database.as_str()).as_str().is_empty() {
            return Err(ConfigError::Invalid("queue.database is empty".to_owned()));
        }
        let level = self.logging.level.as_str();
        if !(same_text(level, "trace") || same_text(level, "debug") || same_text(level, "info")
            || same_text(level, "warn") || same_text(level, "error")) {
            let head = join("unknown logging.level '", level);
            return Err(
                ConfigError::Invalid(
                    join(
                        head.as_str(),
                        "', expected one of [\"trace\", \"debug\", \"info\", \"warn\", \"error\"]",
                    ),
                ),
            );
        }
        if let Some(smtp) = &self.mail.smtp {
            if trim(smtp.host.as_str()).as_str().is_empty() {
                return Err(ConfigError::Invalid("mail.smtp.host is empty".to_owned()));
            }
            if smtp.port == 0 {
                return Err(ConfigError::Invalid("mail.smtp.port must be non-zero".to_owned()));
            }
        }
        if !contains(self.subject.format.as_str(), "%original%") {
            return Err(ConfigError::Invalid("subject.format must contain %original%".to_owned()));
        }
        let n: usize = self.subject.senders.len();
        let mut i: usize = 0;
        #[verifier::loop_isolation(false)]
        while i < n
            invariant
                i <= n == self.subject.senders@.len(),
                first_lossy(self.subject.senders@, 0) == first_lossy(
                    self.subject.senders@,
                    i as int,
                ),
            decreases n - i,
        {
            if !contains(self.subject.senders.value_at(i).format.as_str(), "%original%") {
                let head = join("subject.senders.\"", self.subject.senders.key_at(i).as_str());
                let detail = join(head.as_str(), "\".format must contain %original%");
                proof {
                    assert(first_lossy(self.subject.senders@, 0) == i);
                }
                return Err(ConfigError::Invalid(detail));
            }
            i += 1;
        }
        Ok(())
    }

    /// The settings of the plugin `name` as they stand in the configuration.
    pub open spec fn raw_settings(self, name: Seq<char>) -> Seq<(Seq<char>, Seq<char>)> {
        match lookup(self.plugins@, name) {
            Some(settings) => texts(settings@),
            None => Seq::empty(),
        }
    }

    /// The settings of the plugin `name` with the secrets resolved. A plugin without settings
    /// has an empty map.
    pub fn plugin_settings(&self, name: &str, env: &Env) -> (settings: Result<
        TextMap<String>,
        ConfigError,
    >)
        ensures
            match settings {
                Ok(settings) => resolved(
                    self.raw_settings(name@),
                    |var: Seq<char>| env.value(var),
                ) == Ok::<_, Seq<char>>(texts(settings@)),
                Err(e) => resolved(
                    self.raw_settings(name@),
                    |var: Seq<char>| env.value(var),
                ) matches Err(var) && says_missing(e, var),
            },
    {
        let ghost values = |var: Seq<char>| env.value(var);
        let mut done: TextMap<String> = TextMap::new();
        assert(texts(done@) == Seq::<(Seq<char>, Seq<char>)>::empty());
        let raw = match self.plugins.get(name) {
            Some(raw) => raw,
            None => {
                return Ok(done);
            },
        };
        let ghost entries = texts(raw@);
        let n: usize = raw.len();
        let mut i: usize = 0;
        assert(entries.take(0) == Seq::<(Seq<char>, Seq<char>)>::empty());
        #[verifier::loop_isolation(false)]
        while i < n
            invariant
                i <= n == raw@.len(),
                resolved(entries.take(i as int), values) == Ok::<_, Seq<char>>(texts(done@)),
            decreases n - i,
        {
            let key = raw.key_at(i);
            let value = raw.value_at(i);
            proof {
                assert(entries.take(i + 1).drop_last() == entries.take(i as int));
                assert(entries.take(i + 1).last() == (key@, value@));
                reveal_strlit("_env");
            }
            match strip_ending(key.as_str(), "_env") {
                Some(stripped) => {
                    match env.resolve(value.as_str()) {
                        Ok(secret) => {
                            proof {
                                lemma_texts_inserted(done@, stripped@, secret);
                            }
                            done.insert(stripped, secret);
                        },
                        Err(e) => {
                            proof {
                                lemma_resolved_stays_missing(entries, i + 1, values);
                            }
                            return Err(e);
                        },
                    }
                },
                None => {
                    let text = value.clone();
                    proof {
                        lemma_texts_inserted(done@, key@, text);
                    }
                    done.insert(key.clone(), text);
                },
            }
            i += 1;
        }
        assert(entries.take(n as int) == entries);
        Ok(done)
    }
}

impl SmtpConfig {
    /// The SMTP password, from the variable that the configuration names.
    pub fn password(&self, env: &Env) -> (password: Result<String, ConfigError>)
        ensures
            match password {
                Ok(password) => env.value(self.password_env@) == Some(password@),
                Err(e) => env.value(self.password_env@) is None && says_missing(
                    e,
                    self.password_env@,
                ),
            },
    {
        env.resolve(self.password_env.as_str())
    }
}

impl ServiceAuth {
    /// The password of the service, from the variable that the configuration names.
    pub fn password(&self, env: &Env) -> (password: Result<String, ConfigError>)
        ensures
            match password {
                Ok(password) => env.value(self.password_env@) == Some(password@),
                Err(e) => env.value(self.password_env@) is None && says_missing(
                    e,
                    self.password_env@,
                ),
            },
    {
        env.resolve(self.password_env.as_str())
    }
}

/// The position of the first service from `from` on with the user name `username`; the number
/// of services where there is none.
pub open spec fn service_of(
    services: Seq<(Seq<char>, ServiceAuth)>,
    username: Seq<char>,
    from: int,
) -> int
    decreases services.len() - from,
{
    if from >= services.len() {
        services.len() as int
    } else if services[from].1.username@ == username {
        from
    } else {
        service_of(services, username, from + 1)
    }
}

impl AuthConfig {
    /// The name that the credentials are given, `None` where they are refused, or the variable
    /// of the expected password where it is not set.
    pub open spec fn verdict(self, username: Seq<char>, password: Seq<char>, env: Env) -> Result<
        Option<Seq<char>>,
        Seq<char>,
    > {
        let i = service_of(self.services@, username, 0);
        if i < self.services@.len() {
            match env.value(self.services@[i].1.password_env@) {
                None => Err(self.services@[i].1.password_env@),
                Some(expected) => if expected == password {
                    Ok(Some(self.services@[i].0))
                } else {
                    Ok(None)
                },
            }
        } else if self.self_register.enabled {
            Ok(Some(username))
        } else {
            Ok(None)
        }
    }

    /// Resolves credentials to a sender name. A service with that user name decides alone: it
    /// gives its name where the password is right and refuses otherwise. Where no service has
    /// that user name, self-registration accepts any credentials under the user name.
    pub fn authenticate(&self, username: &str, password: &str, env: &Env) -> (name: Result<
        Option<String>,
        ConfigError,
    >)
        ensures
            match name {
                Ok(name) => self.verdict(username@, password@, *env) == Ok::<_, Seq<char>>(
                    opt_text(name),
                ),
                Err(e) => self.verdict(username@, password@, *env) matches Err(var)
                    && says_missing(e, var),
            },
    {
        let n: usize = self.services.len();
        let mut i: usize = 0;
        while i < n
            invariant
                i <= n == self.services@.len(),
                service_of(self.services@, username@, 0) == service_of(
                    self.services@,
                    username@,
                    i as int,
                ),
            decreases n - i,
        {
            let service = self.services.value_at(i);
            if same_text(service.username.as_str(), username) {
                return match service.password(env) {
                    Ok(expected) => if same_text(expected.as_str(), password) {
                        Ok(Some(self.services.key_at(i).clone()))
                    } else {
                        Ok(None)
                    },
                    Err(e) => Err(e),
                };
            }
            i += 1;
        }
        if self.self_register.enabled {
            Ok(Some(username.to_owned()))
        } else {
            Ok(None)
        }
    }
}

impl SubjectConfig {
    /// The format that holds for `sender`.
    pub open spec fn effective_format(self, sender: Seq<char>) -> Seq<char> {
        match lookup(self.senders@, sender) {
            Some(own) => own.format@,
            None => self.format@,
        }
    }

    /// The subject that `sender` is given for the incoming subject `original`.
    pub open spec fn rendered(self, sender: Seq<char>, original: Seq<char>) -> Seq<char> {
        replaced(
            replaced(self.effective_format(sender), "%name%"@, sender),
            "%original%"@,
            original,
        )
    }

    /// The format that holds for `sender`: its own, or else the common one.
    pub fn format_for(&self, sender: &str) -> (format: &str)
        ensures
            format@ == self.effective_format(sender@),
    {
        match self.senders.get(sender) {
            Some(own) => own.format.as_str(),
            None => self.format.as_str(),
        }
    }

    /// The labelled subject: the sender's format with `%name%` and then `%original%` filled in.
    pub fn render(&self, sender: &str, original: &str) -> (subject: String)
        ensures
            subject@ == self.rendered(sender@, original@),
    {
        proof {
            reveal_strlit("%name%");
            reveal_strlit("%original%");
        }
        let named = replace(self.format_for(sender), "%name%", sender);
        replace(named.as_str(), "%original%", original)
    }
}

/// In a valid configuration the format of every sender holds `%original%`.
pub proof fn law_valid_formats_keep_original(config: Config, sender: Seq<char>)
    requires
        config.problem() is None,
    ensures
        contains_text(config.subject.effective_format(sender), "%original%"@),
{
    lemma_position_of(config.subject.senders@, sender, 0);
    lemma_first_lossy(config.subject.senders@, 0);
}

proof fn lemma_first_lossy(senders: Seq<(Seq<char>, SenderSubject)>, from: int)
    requires
        0 <= from <= senders.len(),
    ensures
        from <= first_lossy(senders, from) <= senders.len(),
        forall|i: int|
            from <= i < first_lossy(senders, from) ==> contains_text(
                (#[trigger] senders[i]).1.format@,
                "%original%"@,
            ),
    decreases senders.len() - from,
{
    if from < senders.len() {
        lemma_first_lossy(senders, from + 1);
    }
}

/// The format of a sender is its own where it has one, whatever the common format is.
pub proof fn law_own_format_wins(subject: SubjectConfig, other: String, sender: Seq<char>)
    requires
        lookup(subject.senders@, sender) is Some,
    ensures
        (SubjectConfig { format: other, ..subject }).effective_format(sender)
            == subject.effective_format(sender),
        subject.effective_format(sender) == lookup(subject.senders@, sender)->0.format@,
{
}

/// No occurrence of `other` in `s` overlaps the occurrence of `pat` at `i`.
pub open spec fn stands_clear(s: Seq<char>, pat: Seq<char>, i: int, other: Seq<char>) -> bool {
    forall|j: int| #[trigger]
        occurs_at(s, other, j) ==> j + other.len() <= i || i + pat.len() <= j
}

/// The labelled subject holds the whole incoming subject. What the format needs for that is an
/// `%original%` that no `%name%` overlaps.
pub proof fn law_render_keeps_original(
    subject: SubjectConfig,
    sender: Seq<char>,
    original: Seq<char>,
    i: int,
)
    requires
        occurs_at(subject.effective_format(sender), "%original%"@, i),
        stands_clear(subject.effective_format(sender), "%original%"@, i, "%name%"@),
    ensures
        contains_text(subject.rendered(sender, original), original),
{
    reveal_strlit("%original%");
    reveal_strlit("%name%");
    let format = subject.effective_format(sender);
    lemma_replaced_keeps(format, "%name%"@, sender, "%original%"@, i);
    lemma_replaced_holds(
        replaced(format, "%name%"@, sender),
        "%original%"@,
        original,
    );
}

/// A text that starts with `kept`, where no `pat` begins before its end, still does once `pat`
/// was replaced.
proof fn lemma_replaced_keeps_start(
    s: Seq<char>,
    pat: Seq<char>,
    with: Seq<char>,
    kept: Seq<char>,
)
    requires
        pat.len() > 0,
        occurs_at(s, kept, 0),
        forall|j: int| 0 <= j < kept.len() ==> !#[trigger] occurs_at(s, pat, j),
    ensures
        occurs_at(replaced(s, pat, with), kept, 0),
    decreases kept.len(),
{
    if kept.len() > 0 && s.len() >= pat.len() {
        let rest = s.skip(1);
        let later = kept.skip(1);
        assert(!occurs_at(s, pat, 0));
        assert(rest.subrange(0, later.len() as int) == s.subrange(0, kept.len() as int).skip(1));
        assert(occurs_at(rest, later, 0));
        assert forall|j: int| 0 <= j < later.len() implies !#[trigger] occurs_at(rest, pat, j) by {
            assert(!occurs_at(s, pat, j + 1));
            if j + pat.len() <= rest.len() {
                assert(rest.subrange(j, j + pat.len()) == s.subrange(j + 1, j + 1 + pat.len()));
            }
        }
        lemma_replaced_keeps_start(rest, pat, with, later);
        let after = replaced(rest, pat, with);
        assert(s[0] == s.subrange(0, kept.len() as int)[0]);
        assert((seq![s[0]] + after).subrange(0, kept.len() as int) == seq![s[0]] + after.subrange(
            0,
            later.len() as int,
        ));
        assert(kept == seq![kept[0]] + later);
    } else if kept.len() == 0 {
        let after = replaced(s, pat, with);
        assert(after.subrange(0, 0) == kept);
    }
}

/// An occurrence of `kept` that no `pat` overlaps is still there once `pat` was replaced.
proof fn lemma_replaced_keeps(
    s: Seq<char>,
    pat: Seq<char>,
    with: Seq<char>,
    kept: Seq<char>,
    i: int,
)
    requires
        pat.len() > 0,
        kept.len() > 0,
        occurs_at(s, kept, i),
        stands_clear(s, kept, i, pat),
    ensures
        contains_text(replaced(s, pat, with), kept),
    decreases s.len(),
{
    let after = replaced(s, pat, with);
    if s.len() < pat.len() {
        assert(occurs_at(after, kept, i));
    } else if occurs_at(s, pat, 0) {
        let n = pat.len() as int;
        assert(n <= i);
        lemma_clear_after(s, pat, kept, i, n);
        lemma_replaced_keeps(s.skip(n), pat, with, kept, i - n);
        lemma_occurs_behind(with, replaced(s.skip(n), pat, with), kept);
    } else if i == 0 {
        assert forall|j: int| 0 <= j < kept.len() implies !#[trigger] occurs_at(s, pat, j) by {}
        lemma_replaced_keeps_start(s, pat, with, kept);
        assert(occurs_at(after, kept, 0));
    } else {
        lemma_clear_after(s, pat, kept, i, 1);
        lemma_replaced_keeps(s.skip(1), pat, with, kept, i - 1);
        lemma_occurs_behind(seq![s[0]], replaced(s.skip(1), pat, with), kept);
    }
}

/// What stands clear in a text stands clear in its rest.
proof fn lemma_clear_after(s: Seq<char>, pat: Seq<char>, kept: Seq<char>, i: int, n: int)
    requires
        0 <= n <= i,
        n <= s.len(),
        occurs_at(s, kept, i),
        stands_clear(s, kept, i, pat),
    ensures
        occurs_at(s.skip(n), kept, i - n),
        stands_clear(s.skip(n), kept, i - n, pat),
{
    let rest = s.skip(n);
    assert(rest.subrange(i - n, i - n + kept.len()) == s.subrange(i, i + kept.len()));
    assert forall|j: int| #[trigger] occurs_at(rest, pat, j) implies j + pat.len() <= i - n || i - n
        + kept.len() <= j by {
        assert(rest.subrange(j, j + pat.len()) == s.subrange(j + n, j + n + pat.len()));
        assert(occurs_at(s, pat, j + n));
    }
}

/// What occurs in a text occurs in it when other text stands before it.
proof fn lemma_occurs_behind(before: Seq<char>, s: Seq<char>, pat: Seq<char>)
    requires
        contains_text(s, pat),
    ensures
        contains_text(before + s, pat),
{
    let i = choose|i: int| occurs_at(s, pat, i);
    let j = before.len() + i;
    assert((before + s).subrange(j, j + pat.len()) == s.subrange(i, i + pat.len()));
    assert(occurs_at(before + s, pat, j));
}

/// Where `pat` occurs, what replaces it is there afterwards.
proof fn lemma_replaced_holds(s: Seq<char>, pat: Seq<char>, with: Seq<char>)
    requires
        pat.len() > 0,
        contains_text(s, pat),
    ensures
        contains_text(replaced(s, pat, with), with),
    decreases s.len(),
{
    let i = choose|i: int| occurs_at(s, pat, i);
    if occurs_at(s, pat, 0) {
        let after = replaced(s, pat, with);
        assert(after.subrange(0, with.len() as int) == with);
        assert(occurs_at(after, with, 0));
    } else {
        let rest = s.skip(1);
        assert(rest.subrange(i - 1, i - 1 + pat.len()) == s.subrange(i, i + pat.len()));
        assert(occurs_at(rest, pat, i - 1));
        lemma_replaced_holds(rest, pat, with);
        lemma_occurs_behind(seq![s[0]], replaced(rest, pat, with), with);
    }
}

/// A service with the user name decides alone: the right password gives its name, another one is
/// refused, and self-registration makes no difference. Without such a service nobody is
/// accepted unless self-registration is on.
pub proof fn law_service_before_self_registration(
    auth: AuthConfig,
    username: Seq<char>,
    password: Seq<char>,
    env: Env,
    enabled: bool,
)
    ensures
        ({
            let i = service_of(auth.services@, username, 0);
            let other = AuthConfig { self_register: SelfRegisterAuth { enabled }, ..auth };
            if i < auth.services@.len() {
                &&& auth.services@[i].1.username@ == username
                &&& other.verdict(username, password, env) == auth.verdict(username, password, env)
                &&& auth.verdict(username, password, env) matches Ok(Some(name)) ==> name
                    == auth.services@[i].0 && env.value(auth.services@[i].1.password_env@) == Some(
                    password,
                )
            } else {
                &&& forall|j: int|
                    0 <= j < auth.services@.len() ==> (#[trigger] auth.services@[j]).1.username@
                        != username
                &&& auth.verdict(username, password, env) == Ok::<Option<Seq<char>>, Seq<char>>(
                    if auth.self_register.enabled {
                        Some(username)
                    } else {
                        None
                    },
                )
            }
        }),
{
    lemma_service_of(auth.services@, username, 0);
}

proof fn lemma_service_of(
    services: Seq<(Seq<char>, ServiceAuth)>,
    username: Seq<char>,
    from: int,
)
    requires
        0 <= from <= services.len(),
    ensures
        from <= service_of(services, username, from) <= services.len(),
        service_of(services, username, from) < services.len() ==> services[service_of(
            services,
            username,
            from,
        )].1.username@ == username,
        forall|j: int|
            from <= j < service_of(services, username, from) ==> (
            #[trigger] services[j]).1.username@ != username,
    decreases services.len() - from,
{
    if from < services.len() && services[from].1.username@ != username {
        lemma_service_of(services, username, from + 1);
    }
}

/// What the settings hold under `key` once the secrets are resolved: the secret that `key` with
/// the ending `_env` names, or else what stands under `key` itself.
pub open spec fn setting(
    raw: Seq<(Seq<char>, Seq<char>)>,
    env: spec_fn(Seq<char>) -> Option<Seq<char>>,
    key: Seq<char>,
) -> Option<Seq<char>> {
    match lookup(raw, key + "_env"@) {
        Some(var) => env(var),
        None => if ends_with_text(key, "_env"@) {
            None
        } else {
            lookup(raw, key)
        },
    }
}

/// Resolved settings hold every secret under its key without the ending `_env`, and every other
/// setting unchanged; they hold nothing else. A secret wins over a setting with its key.
pub proof fn law_settings_resolved(
    raw: Seq<(Seq<char>, Seq<char>)>,
    env: spec_fn(Seq<char>) -> Option<Seq<char>>,
    key: Seq<char>,
)
    requires
        ascending(raw),
        resolved(raw, env) is Ok,
    ensures
        ascending(resolved(raw, env)->Ok_0),
        lookup(resolved(raw, env)->Ok_0, key) == setting(raw, env, key),
    decreases raw.len(),
{
    reveal_strlit("_env");
    let secret = key + "_env"@;
    if raw.len() > 0 {
        let before = raw.drop_last();
        let (last, value) = raw.last();
        law_settings_resolved(before, env, key);
        let done = resolved(before, env)->Ok_0;
        assert(raw == before.push((last, value)));
        lemma_lookup_push(before, last, value, key);
        lemma_lookup_push(before, last, value, secret);
        if ends_with_text(last, "_env"@) {
            let stripped = last.take(last.len() - 4);
            assert(last == stripped + "_env"@) by {
                assert(last.subrange(last.len() - 4, last.len() as int) == "_env"@);
            }
            law_lookup_after_insert(done, stripped, env(value)->0, key);
            if secret == last {
                assert(key == secret.take(secret.len() - 4));
                assert(stripped == key);
            }
        } else {
            law_lookup_after_insert(done, last, value, key);
            assert(ends_with_text(secret, "_env"@)) by {
                assert(secret.subrange(secret.len() - 4, secret.len() as int) == "_env"@);
            }
            if last == key {
                lemma_prefix_less(key, "_env"@);
                lemma_position_of(before, secret, 0);
                let p = position_of(before, secret, 0);
                if p < before.len() {
                    assert(text_less(raw[p].0, raw[raw.len() - 1].0));
                    text_less_transitive(key, secret, key);
                    text_less_irreflexive(key);
                }
            }
        }
    }
}

/// What is found once an entry with a key of its own was added at the end.
proof fn lemma_lookup_push(
    before: Seq<(Seq<char>, Seq<char>)>,
    last: Seq<char>,
    value: Seq<char>,
    key: Seq<char>,
)
    requires
        ascending(before.push((last, value))),
    ensures
        ascending(before),
        lookup(before.push((last, value)), key) == (if key == last {
            Some(value)
        } else {
            lookup(before, key)
        }),
{
    let after = before.push((last, value));
    assert forall|i: int, j: int| 0 <= i < j < before.len() implies text_less(
        #[trigger] before[i].0,
        #[trigger] before[j].0,
    ) by {
        assert(text_less(after[i].0, after[j].0));
    }
    lemma_position_of(before, key, 0);
    lemma_position_of(after, key, 0);
    let p = position_of(before, key, 0);
    let q = position_of(after, key, 0);
    let n = before.len() as int;
    assert(after[n] == (last, value));
    if key == last {
        assert(after[n].0 == key);
        assert(q <= n);
    }
    if p < before.len() {
        assert(after[p] == before[p]);
        assert(after[p].0 == key);
        if key == last {
            assert(text_less(after[p].0, after[before.len() as int].0));
            text_less_irreflexive(key);
        }
    }
    if q < before.len() {
        assert(after[q] == before[q]);
        assert(before[q].0 == key);
    }
}

/// A text stands before every longer text that starts with it.
proof fn lemma_prefix_less(a: Seq<char>, more: Seq<char>)
    requires
        more.len() > 0,
    ensures
        text_less(a, a + more),
    decreases a.len(),
{
    if a.len() > 0 {
        lemma_prefix_less(a.drop_first(), more);
        assert((a + more).drop_first() == a.drop_first() + more);
    }
}

/// A configuration is valid exactly when the database is named, the log level is one of the five,
/// an SMTP host is named with a port, and every subject format holds the incoming subject.
pub proof fn law_what_makes_a_configuration_valid(config: Config)
    ensures
        config.problem() is None <==> {
            &&& exists|i: int|
                0 <= i < config.queue.database@.len() && !is_white_space(
                    #[trigger] config.queue.database@[i],
                )
            &&& {
                ||| config.logging.level@ == "trace"@
                ||| config.logging.level@ == "debug"@
                ||| config.logging.level@ == "info"@
                ||| config.logging.level@ == "warn"@
                ||| config.logging.level@ == "error"@
            }
            &&& config.mail.smtp matches Some(smtp) ==> smtp.port != 0 && exists|i: int|
                0 <= i < smtp.host@.len() && !is_white_space(#[trigger] smtp.host@[i])
            &&& contains_text(config.subject.format@, "%original%"@)
            &&& forall|i: int|
                0 <= i < config.subject.senders@.len() ==> contains_text(
                    (#[trigger] config.subject.senders@[i]).1.format@,
                    "%original%"@,
                )
        },
{
    law_blank_text_is_trimmed_away(config.queue.database@);
    if let Some(smtp) = config.mail.smtp {
        law_blank_text_is_trimmed_away(smtp.host@);
    }
    lemma_first_lossy(config.subject.senders@, 0);
    lemma_first_lossy_is_lossy(config.subject.senders@, 0);
}

proof fn lemma_first_lossy_is_lossy(senders: Seq<(Seq<char>, SenderSubject)>, from: int)
    requires
        0 <= from <= senders.len(),
    ensures
        first_lossy(senders, from) < senders.len() ==> !contains_text(
            senders[first_lossy(senders, from)].1.format@,
            "%original%"@,
        ),
    decreases senders.len() - from,
{
    if from < senders.len() {
        lemma_first_lossy_is_lossy(senders, from + 1);
    }
}

/// A sender without a format of its own has the common one.
pub proof fn law_common_format_for_the_others(subject: SubjectConfig, sender: Seq<char>)
    requires
        forall|i: int|
            0 <= i < subject.senders@.len() ==> (#[trigger] subject.senders@[i]).0 != sender,
    ensures
        subject.effective_format(sender) == subject.format@,
{
    lemma_position_of(subject.senders@, sender, 0);
}

/// The labelled subject is the format with the sender in the place of `%name%` and the incoming
/// subject in the place of `%original%`. What stands around them stays, and the incoming subject
/// is not changed, whatever it holds.
pub proof fn law_label_fills_the_format(
    subject: SubjectConfig,
    sender: Seq<char>,
    original: Seq<char>,
    a: Seq<char>,
    b: Seq<char>,
    c: Seq<char>,
)
    requires
        !a.contains('%') && !b.contains('%') && !c.contains('%') && !sender.contains('%'),
    ensures
        subject.effective_format(sender) == a + "%name%"@ + (b + "%original%"@ + c)
            ==> subject.rendered(sender, original) == a + sender + (b + original + c),
        b != "name"@ && subject.effective_format(sender) == a + "%original%"@ + (b + "%name%"@ + c)
            ==> subject.rendered(sender, original) == a + original + (b + sender + c),
        subject.effective_format(sender) == a + "%original%"@ + b ==> subject.rendered(
            sender,
            original,
        ) == a + original + b,
{
    reveal_strlit("%name%");
    reveal_strlit("name%");
    reveal_strlit("%original%");
    let name = "%name%"@;
    let whole = "%original%"@;
    let none = Seq::<char>::empty();
    assert("name%"@[4] == '%');
    lemma_no_percent(b, "name%"@);
    lemma_no_percent(c, "name%"@);
    law_replaced_where_it_stands(b, name, c, sender);
    law_replaced_where_it_stands(c, name, none, sender);
    law_replaced_where_it_stands(b, whole, none, original);
    law_replaced_where_it_stands(c, whole, none, original);
    // The name comes first.
    let rest = b + whole + c;
    let named = a + sender + b;
    lemma_plain_sum(a, sender, b);
    law_replaced_where_it_stands(a, name, rest, sender);
    lemma_original_stays(b, c, sender);
    law_replaced_where_it_stands(named, whole, c, original);
    assert(a + sender + rest == named + whole + c);
    assert(named + original + c == a + sender + (b + original + c));
    // The incoming subject comes first.
    let tail = b + name + c;
    let filled = b + sender + c;
    lemma_plain_sum(b, sender, c);
    if b != "name"@ {
        lemma_name_does_not_overlap(b, c);
        lemma_original_stays(a, tail, sender);
    }
    law_replaced_where_it_stands(a, whole, filled, original);
    law_replaced_where_it_stands(filled, whole, none, original);
    // There is no name.
    lemma_original_stays(a, b, sender);
    law_replaced_where_it_stands(a, whole, b, original);
}

/// A text without a percent sign does not start with a text that has one.
proof fn lemma_no_percent(s: Seq<char>, pat: Seq<char>)
    requires
        !s.contains('%'),
        pat.contains('%'),
    ensures
        !occurs_at(s, pat, 0),
{
    if occurs_at(s, pat, 0) {
        let i = choose|i: int| 0 <= i < pat.len() && pat[i] == '%';
        assert(s.subrange(0, pat.len() as int)[i] == s[i]);
    }
}

/// Texts without a percent sign make one without.
proof fn lemma_plain_sum(a: Seq<char>, b: Seq<char>, c: Seq<char>)
    requires
        !a.contains('%') && !b.contains('%') && !c.contains('%'),
    ensures
        !(a + b + c).contains('%'),
{
    let sum = a + b + c;
    assert forall|i: int| 0 <= i < sum.len() implies sum[i] != '%' by {
        if i < a.len() {
            assert(a[i] == sum[i]);
        } else if i < a.len() + b.len() {
            assert(b[i - a.len()] == sum[i]);
        } else {
            assert(c[i - a.len() - b.len()] == sum[i]);
        }
    }
}

/// Only where `name` stands between the placeholders does another `%name%` begin with the last
/// character of the `%original%`.
proof fn lemma_name_does_not_overlap(b: Seq<char>, c: Seq<char>)
    requires
        !b.contains('%'),
        b != "name"@,
    ensures
        !occurs_at(b + "%name%"@ + c, "name%"@, 0),
{
    reveal_strlit("%name%");
    reveal_strlit("name%");
    reveal_strlit("name");
    let tail = b + "%name%"@ + c;
    if occurs_at(tail, "name%"@, 0) {
        let start = tail.subrange(0, 5);
        assert(start[0] == 'n' && start[1] == 'a' && start[2] == 'm' && start[3] == 'e');
        assert(start[4] == '%');
        assert(tail[b.len() as int] == '%');
        if b.len() < 4 {
            assert(start[b.len() as int] == '%');
        } else if b.len() > 4 {
            assert(b[4] == start[4]);
        } else {
            assert(b == "name"@);
        }
    }
}

/// Filling in `%name%` goes past an `%original%` that no `%name%` overlaps.
proof fn lemma_original_stays(before: Seq<char>, after: Seq<char>, sender: Seq<char>)
    requires
        !before.contains('%'),
        !occurs_at(after, "name%"@, 0),
    ensures
        replaced(before + "%original%"@ + after, "%name%"@, sender) == before + "%original%"@
            + replaced(after, "%name%"@, sender),
    decreases before.len(),
{
    reveal_strlit("%name%");
    reveal_strlit("%original%");
    let name = "%name%"@;
    let whole = "%original%"@;
    let text = before + whole + after;
    let done = replaced(after, name, sender);
    if before.len() > 0 {
        let rest = before.drop_first();
        assert forall|i: int| 0 <= i < rest.len() implies rest[i] != '%' by {
            assert(before[i + 1] == rest[i]);
        }
        assert(!rest.contains('%'));
        lemma_original_stays(rest, after, sender);
        assert(text.skip(1) == rest + whole + after);
        assert(text[0] == before[0] && before[0] != '%');
        if occurs_at(text, name, 0) {
            assert(text.subrange(0, 6)[0] == text[0]);
        }
        assert(seq![text[0]] + (rest + whole + done) == before + whole + done);
    } else {
        lemma_goes_past_original(after, sender, 0);
        assert(whole.skip(0) == whole);
        assert(text == whole + after);
        assert(before + whole + done == whole + done);
    }
}

/// Filling in `%name%` goes past what is left of an `%original%` from its `i`th character on.
proof fn lemma_goes_past_original(after: Seq<char>, sender: Seq<char>, i: int)
    requires
        0 <= i <= 10,
        !occurs_at(after, "name%"@, 0),
    ensures
        replaced("%original%"@.skip(i) + after, "%name%"@, sender) == "%original%"@.skip(i)
            + replaced(after, "%name%"@, sender),
    decreases 10 - i,
{
    reveal_strlit("%name%");
    reveal_strlit("name%");
    reveal_strlit("%original%");
    let name = "%name%"@;
    let left = "%original%"@.skip(i);
    let text = left + after;
    let done = replaced(after, name, sender);
    if i == 10 {
        assert(text == after);
        assert(left + done == done);
    } else {
        lemma_goes_past_original(after, sender, i + 1);
        assert(left.skip(1) == "%original%"@.skip(i + 1));
        assert(text.skip(1) == left.skip(1) + after);
        if occurs_at(text, name, 0) {
            let start = text.subrange(0, 6);
            assert(start[0] == left[0] && start[0] == '%');
            assert(i == 0 || i == 1 || i == 2 || i == 3 || i == 4 || i == 5 || i == 6 || i == 7 || i
                == 8 || i == 9);
            assert(left[0] == "%original%"@[i]);
            assert(i == 0 || i == 9);
            if i == 0 {
                assert(start[1] == 'o');
            } else {
                assert(after.subrange(0, 5) == start.skip(1));
                assert(start.skip(1) == "name%"@);
            }
        }
        if text.len() >= 6 {
            assert(replaced(text, name, sender) == seq![left[0]] + replaced(
                text.skip(1),
                name,
                sender,
            ));
            assert(seq![left[0]] + (left.skip(1) + done) == left + done);
        }
    }
}

/// The first service with the user name decides: the password that its variable holds gives the
/// service's name, any other is refused, and where the variable is not set it is named.
pub proof fn law_password_of_the_service_decides(
    auth: AuthConfig,
    username: Seq<char>,
    password: Seq<char>,
    env: Env,
    i: int,
)
    requires
        0 <= i < auth.services@.len(),
        auth.services@[i].1.username@ == username,
        forall|j: int| 0 <= j < i ==> (#[trigger] auth.services@[j]).1.username@ != username,
    ensures
        match env.value(auth.services@[i].1.password_env@) {
            Some(expected) => auth.verdict(username, password, env) matches Ok(name) && (if password
                == expected {
                name == Some(auth.services@[i].0)
            } else {
                name is None
            }),
            None => auth.verdict(username, password, env) matches Err(var) && var
                == auth.services@[i].1.password_env@,
        },
{
    lemma_service_of(auth.services@, username, 0);
}

/// Where no service has the user name, the credentials are accepted under that name with
/// self-registration, whatever the password is, and refused without.
pub proof fn law_unknown_user_needs_self_registration(
    auth: AuthConfig,
    username: Seq<char>,
    password: Seq<char>,
    env: Env,
)
    requires
        forall|j: int|
            0 <= j < auth.services@.len() ==> (#[trigger] auth.services@[j]).1.username@
                != username,
    ensures
        auth.self_register.enabled ==> (auth.verdict(username, password, env) matches Ok(name)
            && name == Some(username)),
        !auth.self_register.enabled ==> (auth.verdict(username, password, env) matches Ok(name)
            && name is None),
{
    lemma_service_of(auth.services@, username, 0);
}

/// A secret is stored as the value of the variable that the setting names, under the key without
/// its ending; another setting is stored as it stands unless a secret takes its key.
pub proof fn law_secrets_and_settings_are_kept(
    raw: Seq<(Seq<char>, Seq<char>)>,
    env: spec_fn(Seq<char>) -> Option<Seq<char>>,
    key: Seq<char>,
    value: Seq<char>,
    i: int,
)
    requires
        ascending(raw),
        resolved(raw, env) is Ok,
        0 <= i < raw.len(),
    ensures
        raw[i] == (key + "_env"@, value) ==> env(value) is Some && lookup(
            resolved(raw, env)->Ok_0,
            key,
        ) == env(value),
        raw[i] == (key, value) && !ends_with_text(key, "_env"@) && (forall|j: int|
            0 <= j < raw.len() ==> (#[trigger] raw[j]).0 != key + "_env"@) ==> lookup(
            resolved(raw, env)->Ok_0,
            key,
        ) == Some(value),
{
    law_settings_resolved(raw, env, key);
    law_settings_need_their_secrets(raw, env);
    lemma_found_at(raw, i);
    lemma_position_of(raw, key + "_env"@, 0);
    if raw[i] == (key + "_env"@, value) {
        reveal_strlit("_env");
        let secret = key + "_env"@;
        assert(secret.subrange(secret.len() - 4, secret.len() as int) == "_env"@);
        assert(ends_with_text(raw[i].0, "_env"@));
    }
}

/// What is found under the key of an entry is its value.
proof fn lemma_found_at(raw: Seq<(Seq<char>, Seq<char>)>, i: int)
    requires
        ascending(raw),
        0 <= i < raw.len(),
    ensures
        lookup(raw, raw[i].0) == Some(raw[i].1),
{
    lemma_position_of(raw, raw[i].0, 0);
    let p = position_of(raw, raw[i].0, 0);
    if p < i {
        assert(text_less(raw[p].0, raw[i].0));
        text_less_irreflexive(raw[i].0);
    }
}

/// Settings are resolved exactly when every secret that they name is set. Else the variable that
/// is reported is one that a secret names and that is not set, and those before it are set.
pub proof fn law_settings_need_their_secrets(
    raw: Seq<(Seq<char>, Seq<char>)>,
    env: spec_fn(Seq<char>) -> Option<Seq<char>>,
)
    ensures
        resolved(raw, env) is Ok <==> forall|i: int|
            0 <= i < raw.len() && ends_with_text((#[trigger] raw[i]).0, "_env"@) ==> env(raw[i].1)
                is Some,
        resolved(raw, env) matches Err(var) ==> exists|i: int|
            0 <= i < raw.len() && ends_with_text((#[trigger] raw[i]).0, "_env"@) && raw[i].1 == var
                && env(var) is None && forall|j: int|
                0 <= j < i && ends_with_text((#[trigger] raw[j]).0, "_env"@) ==> env(raw[j].1)
                    is Some,
    decreases raw.len(),
{
    if raw.len() > 0 {
        let before = raw.drop_last();
        law_settings_need_their_secrets(before, env);
        let last = raw.len() - 1;
        assert(raw[last] == raw.last());
        assert forall|i: int| 0 <= i < last implies #[trigger] before[i] == raw[i] by {}
        if let Err(var) = resolved(before, env) {
            let i = choose|i: int|
                0 <= i < before.len() && ends_with_text((#[trigger] before[i]).0, "_env"@)
                    && before[i].1 == var && env(var) is None && forall|j: int|
                    0 <= j < i && ends_with_text((#[trigger] before[j]).0, "_env"@) ==> env(
                        before[j].1,
                    ) is Some;
            assert(raw[i] == before[i]);
            assert forall|j: int|
                0 <= j < i && ends_with_text((#[trigger] raw[j]).0, "_env"@) implies env(raw[j].1)
                is Some by {
                assert(before[j] == raw[j]);
            }
        } else {
            assert forall|j: int|
                0 <= j < last && ends_with_text((#[trigger] raw[j]).0, "_env"@) implies env(
                raw[j].1,
            ) is Some by {
                assert(before[j] == raw[j]);
            }
        }
    }
}

/// The settings of a plugin are those that stand under its name, and none where nothing does.
pub proof fn law_settings_stand_under_the_plugin(config: Config, name: Seq<char>)
    ensures
        lookup(config.plugins@, name) matches Some(own) ==> {
            &&& config.raw_settings(name).len() == own@.len()
            &&& forall|i: int|
                0 <= i < own@.len() ==> (#[trigger] config.raw_settings(name)[i]).0 == own@[i].0
                    && config.raw_settings(name)[i].1 == own@[i].1@
        },
        lookup(config.plugins@, name) is None ==> config.raw_settings(name).len() == 0,
{
}

/// The view of a map of strings holds every entry.
pub proof fn law_view_of_a_map_of_strings(entries: Seq<(Seq<char>, String)>)
    ensures
        texts(entries).len() == entries.len(),
        forall|i: int|
            0 <= i < entries.len() ==> (#[trigger] texts(entries)[i]).0 == entries[i].0 && texts(
                entries,
            )[i].1 == entries[i].1@,
{
}

/// A configuration is accepted exactly when nothing is wrong with it, and refused with what is.
pub proof fn law_validation_reports_the_problem(config: &Config, result: Result<(), ConfigError>)
    requires
        call_ensures(Config::validate, (config,), result),
    ensures
        result is Ok <==> config.problem() is None,
        result matches Err(e) ==> (e matches ConfigError::Invalid(text) && config.problem() == Some(
            text@,
        )),
{
}

/// Of several things that are wrong with a configuration the first is reported: the database, the
/// log level, the SMTP host, its port, the common format, and then the formats of the senders.
pub proof fn law_first_config_problem_is_reported(config: Config)
    ensures
        trimmed(config.queue.database@).len() == 0 ==> config.problem() == Some(
            "queue.database is empty"@,
        ),
        trimmed(config.queue.database@).len() > 0 && !is_level(config.logging.level@)
            ==> config.problem() is Some && contains_text(
            config.problem()->0,
            config.logging.level@,
        ),
        trimmed(config.queue.database@).len() > 0 && is_level(config.logging.level@) && (
        config.mail.smtp matches Some(smtp) && trimmed(smtp.host@).len() == 0)
            ==> config.problem() == Some("mail.smtp.host is empty"@),
        trimmed(config.queue.database@).len() > 0 && is_level(config.logging.level@) && (
        config.mail.smtp matches Some(smtp) && trimmed(smtp.host@).len() > 0 && smtp.port == 0)
            ==> config.problem() == Some("mail.smtp.port must be non-zero"@),
{
    let level = config.logging.level@;
    let tail = "', expected one of [\"trace\", \"debug\", \"info\", \"warn\", \"error\"]"@;
    law_parts_are_found_where_they_stand("unknown logging.level '"@, level, tail);
}

/// Credentials are resolved by the first service with the user name and its password, or by
/// self-registration where there is none.
pub proof fn law_credentials_are_resolved(
    auth: &AuthConfig,
    username: &str,
    password: &str,
    env: &Env,
    name: Result<Option<String>, ConfigError>,
    i: int,
)
    requires
        call_ensures(AuthConfig::authenticate, (auth, username, password, env), name),
        0 <= i <= auth.services@.len(),
        forall|j: int| 0 <= j < i ==> (#[trigger] auth.services@[j]).1.username@ != username@,
        i < auth.services@.len() ==> auth.services@[i].1.username@ == username@,
    ensures
        i == auth.services@.len() ==> (name matches Ok(given) && (given is Some
            <==> auth.self_register.enabled) && (given matches Some(text) ==> text@ == username@)),
        i < auth.services@.len() ==> match env.value(auth.services@[i].1.password_env@) {
            Some(expected) => name matches Ok(given) && (given is Some <==> expected == password@)
                && (given matches Some(text) ==> text@ == auth.services@[i].0),
            None => name matches Err(e) && (e matches ConfigError::MissingEnv(var) && var@
                == auth.services@[i].1.password_env@),
        },
{
    if i < auth.services@.len() {
        law_password_of_the_service_decides(*auth, username@, password@, *env, i);
    } else {
        law_unknown_user_needs_self_registration(*auth, username@, password@, *env);
    }
}

/// The subject that a sender is given fills the sender's format.
pub proof fn law_rendered_subject_fills_the_format(
    subject: &SubjectConfig,
    sender: &str,
    original: &str,
    label: String,
    a: Seq<char>,
    b: Seq<char>,
    c: Seq<char>,
)
    requires
        call_ensures(SubjectConfig::render, (subject, sender, original), label),
        !a.contains('%') && !b.contains('%') && !c.contains('%') && !sender@.contains('%'),
        match lookup(subject.senders@, sender@) {
            Some(own) => own.format@,
            None => subject.format@,
        } == a + "%name%"@ + (b + "%original%"@ + c),
    ensures
        label@ == a + sender@ + (b + original@ + c),
{
    law_label_fills_the_format(*subject, sender@, original@, a, b, c);
}

/// The settings of a plugin are resolved exactly when its secrets are set; the error names the
/// variable that is not.
pub proof fn law_plugin_settings_need_their_secrets(
    config: &Config,
    name: &str,
    env: &Env,
    settings: Result<TextMap<String>, ConfigError>,
)
    requires
        call_ensures(Config::plugin_settings, (config, name, env), settings),
    ensures
        settings is Ok <==> forall|i: int|
            0 <= i < config.raw_settings(name@).len() && ends_with_text(
                (#[trigger] config.raw_settings(name@)[i]).0,
                "_env"@,
            ) ==> env.value(config.raw_settings(name@)[i].1) is Some,
        settings matches Err(e) ==> (e matches ConfigError::MissingEnv(var) && env.value(var@)
            is None),
{
    let values = |var: Seq<char>| env.value(var);
    law_settings_need_their_secrets(config.raw_settings(name@), values);
}

} // verus!
