# OxidRelay

A mail relay for the local network. Services submit mail over plain SMTP; the relay queues it and
delivers it in the background through the transport that is configured for the sender: SMTP, or a
plugin written as a script.

The relay's decisions are a library that is verified with Verus. Everything that touches the
network, the file system, the clock or the database is ordinary Rust around it.

## Library (`src/`)

| Module | What it holds |
| --- | --- |
| `text`, `table`, `time`, `id`, `env` | Text operations, a map in key order, points in time and spans, mail identifiers, the environment as a value |
| `error` | Error types and their texts |
| `config` | The configuration, its checks, secrets, credentials, subject labels |
| `message`, `storage` | Mails, and how a mail is laid out in a row of the database |
| `queue` | What may be delivered next, how the record of a mail changes, a queue in memory |
| `retry`, `dispatcher` | Backoff, the steps of a polling tick, the choice of a transport, what a delivery comes to |
| `whitelist`, `ingress`, `routing` | Who may submit mail, the SMTP session, which channels a mail goes to |
| `smtp` | The login of the SMTP transport and the message that a mail becomes |
| `http`, `script`, `plugins`, `manifest` | What plugin scripts are handed and may ask for, which plugins can be used |
| `startup`, `logging` | What is worked out when the relay starts |

Contracts speak of views: texts are sequences of characters, a `Mail` is a `MailView`, a queue is a
sequence of them. Functions named `law_...` state what holds across several functions.

A function marked as trusted in its comment calls another crate, and its contract is taken as
given. Where the result is a function of the arguments that would take pages to describe (a parsed
message, a regular expression's match), the contract gives it a name.

## Program (`app/`)

Command line, configuration file, SQLite database, SMTP listener, HTTP client, script engine and
the loop that carries out what the library asks for.
