//! Error types shared by the relay's parts, with the text that is shown and recorded.

use vstd::prelude::*;

use crate::text::join;

verus! {

/// Errors of the mail and queue logic.
#[derive(Debug, Clone, PartialEq, Eq)]
pub enum CoreError {
    /// A mail was rejected because it failed validation.
    InvalidMail(String),
    /// The requested mail is not in the queue.
    NotFound(String),
    /// A transport failed to deliver a mail.
    Transport(String),
    /// The queue's storage reported an error.
    Queue(String),
}

impl CoreError {
    /// The text of the error.
    pub open spec fn text(self) -> Seq<char> {
        match self {
            CoreError::InvalidMail(detail) => "invalid mail: "@ + detail@,
            CoreError::NotFound(detail) => "mail not found: "@ + detail@,
            CoreError::Transport(detail) => "transport error: "@ + detail@,
            CoreError::Queue(detail) => "queue error: "@ + detail@,
        }
    }

    /// The text of the error.
    pub fn message(&self) -> (s: String)
        ensures
            s@ == self.text(),
    {
        match self {
            CoreError::InvalidMail(detail) => join("invalid mail: ", detail.as_str()),
            CoreError::NotFound(detail) => join("mail not found: ", detail.as_str()),
            CoreError::Transport(detail) => join("transport error: ", detail.as_str()),
            CoreError::Queue(detail) => join("queue error: ", detail.as_str()),
        }
    }
}

/// `e` says that the mail is not valid for the reason `detail`.
pub open spec fn says_invalid_mail(e: CoreError, detail: Seq<char>) -> bool {
    e matches CoreError::InvalidMail(text) && text@ == detail
}

/// Errors of loading and checking the configuration.
#[derive(Debug, Clone, PartialEq, Eq)]
pub enum ConfigError {
    /// The configuration file could not be read.
    Read {
        /// Path that was attempted.
        path: String,
        /// What the system reported.
        source: String,
    },
    /// The content could not be parsed.
    Parse(String),
    /// The content was parsed but is not valid.
    Invalid(String),
    /// An environment variable that the configuration names is not set.
    MissingEnv(String),
}

impl ConfigError {
    /// The text of the error.
    pub open spec fn text(self) -> Seq<char> {
        match self {
            ConfigError::Read { path, source } => "could not read config file "@ + path@ + ": "@
                + source@,
            ConfigError::Parse(detail) => "could not parse config: "@ + detail@,
            ConfigError::Invalid(detail) => "invalid config: "@ + detail@,
            ConfigError::MissingEnv(var) => "environment variable "@ + var@ + " is not set"@,
        }
    }

    /// The text of the error.
    pub fn message(&self) -> (s: String)
        ensures
            s@ == self.text(),
    {
        match self {
            ConfigError::Read { path, source } => {
                let head = join("could not read config file ", path.as_str());
                join(join(head.as_str(), ": ").as_str(), source.as_str())
            },
            ConfigError::Parse(detail) => join("could not parse config: ", detail.as_str()),
            ConfigError::Invalid(detail) => join("invalid config: ", detail.as_str()),
            ConfigError::MissingEnv(var) => {
                let head = join("environment variable ", var.as_str());
                join(head.as_str(), " is not set")
            },
        }
    }
}

/// `e` says that the variable `var` is not set.
pub open spec fn says_missing(e: ConfigError, var: Seq<char>) -> bool {
    e matches ConfigError::MissingEnv(name) && name@ == var
}

/// `e` says that the configuration is not valid, with the detail `detail`.
pub open spec fn says_invalid(e: ConfigError, detail: Seq<char>) -> bool {
    e matches ConfigError::Invalid(text) && text@ == detail
}

/// Errors of starting or running the SMTP ingress.
#[derive(Debug, Clone, PartialEq, Eq)]
pub enum IngressError {
    /// The SMTP ingress is not configured.
    Disabled,
    /// TLS setup failed.
    Tls(String),
    /// The bind address was invalid.
    Bind(String),
    /// The SMTP server stopped with an error.
    Serve(String),
}

impl IngressError {
    /// The text of the error.
    pub open spec fn text(self) -> Seq<char> {
        match self {
            IngressError::Disabled => "smtp ingress is not configured"@,
            IngressError::Tls(detail) => "tls setup failed: "@ + detail@,
            IngressError::Bind(detail) => "invalid bind address: "@ + detail@,
            IngressError::Serve(detail) => "smtp server error: "@ + detail@,
        }
    }

    /// The text of the error.
    pub fn message(&self) -> (s: String)
        ensures
            s@ == self.text(),
    {
        match self {
            IngressError::Disabled => "smtp ingress is not configured".to_owned(),
            IngressError::Tls(detail) => join("tls setup failed: ", detail.as_str()),
            IngressError::Bind(detail) => join("invalid bind address: ", detail.as_str()),
            IngressError::Serve(detail) => join("smtp server error: ", detail.as_str()),
        }
    }
}

/// Errors of loading a plugin.
#[derive(Debug, Clone, PartialEq, Eq)]
pub enum PluginError {
    /// A file could not be read.
    Io {
        /// Path that was attempted.
        path: String,
        /// What the system reported.
        source: String,
    },
    /// The manifest could not be parsed.
    Manifest(String),
    /// The script does not compile.
    Compile(String),
    /// The plugin failed validation.
    Invalid(String),
}

impl PluginError {
    /// The text of the error.
    pub open spec fn text(self) -> Seq<char> {
        match self {
            PluginError::Io { path, source } => "could not read "@ + path@ + ": "@ + source@,
            PluginError::Manifest(detail) => "invalid manifest: "@ + detail@,
            PluginError::Compile(detail) => "script compile error: "@ + detail@,
            PluginError::Invalid(detail) => "invalid plugin: "@ + detail@,
        }
    }

    /// The text of the error.
    pub fn message(&self) -> (s: String)
        ensures
            s@ == self.text(),
    {
        match self {
            PluginError::Io { path, source } => {
                let head = join("could not read ", path.as_str());
                join(join(head.as_str(), ": ").as_str(), source.as_str())
            },
            PluginError::Manifest(detail) => join("invalid manifest: ", detail.as_str()),
            PluginError::Compile(detail) => join("script compile error: ", detail.as_str()),
            PluginError::Invalid(detail) => join("invalid plugin: ", detail.as_str()),
        }
    }
}

/// The text of an error of the mail and queue logic says of what kind it is and ends with its
/// detail.
pub proof fn law_error_text_ends_with_its_detail(e: CoreError)
    ensures
        match e {
            CoreError::InvalidMail(detail) => e.text().take("invalid mail: "@.len() as int)
                == "invalid mail: "@ && e.text().skip("invalid mail: "@.len() as int) == detail@,
            CoreError::NotFound(detail) => e.text().take("mail not found: "@.len() as int)
                == "mail not found: "@ && e.text().skip("mail not found: "@.len() as int)
                == detail@,
            CoreError::Transport(detail) => e.text().take("transport error: "@.len() as int)
                == "transport error: "@ && e.text().skip("transport error: "@.len() as int)
                == detail@,
            CoreError::Queue(detail) => e.text().take("queue error: "@.len() as int)
                == "queue error: "@ && e.text().skip("queue error: "@.len() as int) == detail@,
        },
{
    match e {
        CoreError::InvalidMail(detail) => {
            lemma_head_and_tail("invalid mail: "@, detail@);
        },
        CoreError::NotFound(detail) => {
            lemma_head_and_tail("mail not found: "@, detail@);
        },
        CoreError::Transport(detail) => {
            lemma_head_and_tail("transport error: "@, detail@);
        },
        CoreError::Queue(detail) => {
            lemma_head_and_tail("queue error: "@, detail@);
        },
    }
}

proof fn lemma_head_and_tail(head: Seq<char>, tail: Seq<char>)
    ensures
        (head + tail).take(head.len() as int) == head,
        (head + tail).skip(head.len() as int) == tail,
{
    assert((head + tail).take(head.len() as int) == head);
    assert((head + tail).skip(head.len() as int) == tail);
}

/// What an error is said to be about is what it carries.
pub proof fn law_errors_carry_what_they_say(
    mail: CoreError,
    config: ConfigError,
    detail: Seq<char>,
)
    ensures
        says_invalid_mail(mail, detail) ==> (mail matches CoreError::InvalidMail(text) && text@
            == detail),
        says_missing(config, detail) ==> (config matches ConfigError::MissingEnv(var) && var@
            == detail),
        says_invalid(config, detail) ==> (config matches ConfigError::Invalid(text) && text@
            == detail),
{
}

/// The text of an error that a variable is not set names the variable, and that of an error of
/// the content ends with its detail.
pub proof fn law_config_error_names_its_cause(e: ConfigError)
    ensures
        e matches ConfigError::MissingEnv(var) ==> e.text().subrange(
            "environment variable "@.len() as int,
            ("environment variable "@.len() + var@.len()) as int,
        ) == var@,
        e matches ConfigError::Parse(detail) ==> e.text().skip(
            "could not parse config: "@.len() as int,
        ) == detail@,
        e matches ConfigError::Invalid(detail) ==> e.text().skip("invalid config: "@.len() as int)
            == detail@,
{
    match e {
        ConfigError::MissingEnv(var) => {
            let head = "environment variable "@;
            assert(e.text().subrange(head.len() as int, (head.len() + var@.len()) as int) == var@);
        },
        ConfigError::Parse(detail) => {
            lemma_head_and_tail("could not parse config: "@, detail@);
        },
        ConfigError::Invalid(detail) => {
            lemma_head_and_tail("invalid config: "@, detail@);
        },
        ConfigError::Read { .. } => {},
    }
}

} // verus!
