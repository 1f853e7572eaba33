//! What the relay works out from its configuration when it starts.

use vstd::prelude::*;

use crate::config::Config;
use crate::dispatcher::DispatcherConfig;
use crate::retry::RetryPolicy;
use crate::text::{
    chars_of, copy_opt, cut, join, lists, same_text, split, starts_with, string_of, strip_start,
    trim, unescape,
};
use crate::time::Duration;

verus! {

use crate::text::{
    drop_leading, drop_trailing, first_of, is_white_space, lemma_first_of, occurs_at, opt_text,
    pieces, strings, trimmed, unescaped_text, without_start,
};

/// The settings of the dispatcher.
pub fn dispatcher_config(config: &Config) -> (c: DispatcherConfig)
    ensures
        c.batch_size == config.dispatcher.batch_size,
        c.concurrency == config.dispatcher.concurrency,
        c.poll_interval.length() == config.dispatcher.poll_interval_secs * 1_000_000_000,
        c.sending_lease.length() == config.dispatcher.sending_lease_secs * 1_000_000_000,
        c.retry.max_attempts == config.dispatcher.max_attempts,
        c.retry.base_delay.length() == config.dispatcher.retry_base_secs * 1_000_000_000,
        c.retry.max_delay.length() == config.dispatcher.retry_max_secs * 1_000_000_000,
{
    let settings = &config.dispatcher;
    DispatcherConfig {
        batch_size: settings.batch_size,
        concurrency: settings.concurrency,
        poll_interval: Duration::from_secs(settings.poll_interval_secs),
        sending_lease: Duration::from_secs(settings.sending_lease_secs),
        retry: RetryPolicy {
            max_attempts: settings.max_attempts,
            base_delay: Duration::from_secs(settings.retry_base_secs),
            max_delay: Duration::from_secs(settings.retry_max_secs),
        },
    }
}

/// The URL of the queue's database.
pub open spec fn url_of(database: Seq<char>) -> Seq<char> {
    if occurs_at(database, "sqlite:"@, 0) {
        database
    } else {
        "sqlite:"@ + database
    }
}

/// The URL of the queue's database.
pub fn sqlite_url(database: &str) -> (url: String)
    ensures
        url@ == url_of(database@),
{
    if starts_with(database, "sqlite:") {
        database.to_owned()
    } else {
        join("sqlite:", database)
    }
}

/// A URL is left as it is.
pub proof fn law_url_is_stable(database: Seq<char>)
    ensures
        url_of(url_of(database)) == url_of(database),
{
    let url = "sqlite:"@ + database;
    assert(url.subrange(0, "sqlite:"@.len() as int) == "sqlite:"@);
}

/// What stands behind the scheme in the URL of the queue's database: the file and the
/// parameters.
pub open spec fn behind_scheme(database: Seq<char>) -> Seq<char> {
    without_start(without_start(url_of(database), "sqlite://"@), "sqlite:"@)
}

/// The file of a database, given what stands behind the scheme: up to the parameters, with
/// percent escapes read, and without the `file:` that SQLite takes before a file name.
pub open spec fn file_of(rest: Seq<char>) -> Seq<char> {
    let name = unescaped_text(rest.take(first_of(rest, '?', 0)));
    if occurs_at(name, "file://"@, 0) {
        name.skip(7)
    } else if occurs_at(name, "file:"@, 0) {
        name.skip(5)
    } else {
        name
    }
}

/// The parameters of a database, given what stands behind the scheme, ask for one in memory.
pub open spec fn asks_for_memory(rest: Seq<char>) -> bool {
    let i = first_of(rest, '?', 0);
    i < rest.len() && pieces(rest.skip(i + 1), '&').contains("mode=memory"@)
}

/// The database is in memory, or is one that SQLite makes for a single connection.
pub open spec fn is_private(database: Seq<char>) -> bool {
    let rest = behind_scheme(database);
    ||| asks_for_memory(rest)
    ||| file_of(rest) == ":memory:"@
    ||| file_of(rest).len() == 0
}

/// The setting names no database: it holds nothing but white space.
pub open spec fn is_blank(database: Seq<char>) -> bool {
    trimmed(database).len() == 0
}

/// The file that is locked so that one instance alone runs on a queue: it stands beside the file
/// of the database, whichever way that is written. There is none for a database in memory or a
/// blank setting.
pub open spec fn lock_of(database: Seq<char>) -> Option<Seq<char>> {
    if is_blank(database) || is_private(database) {
        None
    } else {
        Some(file_of(behind_scheme(database)) + ".lock"@)
    }
}

/// The file that is locked so that one instance alone runs on a queue.
pub fn lock_path(database: &str) -> (path: Option<String>)
    ensures
        opt_text(path) == lock_of(database@),
{
    proof {
        reveal_strlit("sqlite://");
        reveal_strlit("sqlite:");
        reveal_strlit("file://");
        reveal_strlit("file:");
        lemma_first_of(behind_scheme(database@), '?', 0);
    }
    if trim(database).as_str().is_empty() {
        return None;
    }
    let url = sqlite_url(database);
    let bare = strip_start(url.as_str(), "sqlite://");
    let rest = strip_start(bare.as_str(), "sqlite:");
    let (head, parameters) = cut(rest.as_str(), '?');
    if let Some(parameters) = parameters {
        if lists(&split(parameters.as_str(), '&'), "mode=memory") {
            return None;
        }
    }
    let name = unescape(head.as_str());
    let chars = chars_of(name.as_str());
    let from: usize = if starts_with(name.as_str(), "file://") {
        7
    } else if starts_with(name.as_str(), "file:") {
        5
    } else {
        0
    };
    let file = string_of(&chars, from, chars.len());
    proof {
        assert(file@ == name@.skip(from as int));
        assert(name@.skip(0) == name@);
        assert(file@ == file_of(rest@));
    }
    if same_text(file.as_str(), ":memory:") || file.as_str().is_empty() {
        None
    } else {
        Some(join(file.as_str(), ".lock"))
    }
}

/// Two values that open the same database by the same URL have the same lock, unless one of them
/// is blank.
pub proof fn law_same_url_same_lock(a: Seq<char>, b: Seq<char>)
    requires
        !is_blank(a),
        !is_blank(b),
        url_of(a) == url_of(b),
    ensures
        lock_of(a) == lock_of(b),
{
}

/// A path and the URLs of that path have the same lock, unless the path is made of white space.
pub proof fn law_path_and_urls_share_a_lock(path: Seq<char>)
    requires
        is_blank(path) ==> path.len() == 0,
        !occurs_at(path, "sqlite:"@, 0),
        !occurs_at(path, "//"@, 0),
    ensures
        lock_of("sqlite:"@ + path) == lock_of(path),
        lock_of("sqlite://"@ + path) == lock_of(path),
{
    reveal_strlit("sqlite:");
    reveal_strlit("sqlite://");
    let short = "sqlite:"@ + path;
    let long = "sqlite://"@ + path;
    lemma_behind_scheme(path);
    lemma_not_blank(short);
    lemma_not_blank(long);
    if path.len() == 0 {
        lemma_no_file(path);
    }
    assert(short.subrange(0, 7) == "sqlite:"@);
    assert(url_of(short) == url_of(path));
    assert("sqlite://"@.take(7) == "sqlite:"@);
    assert(long.subrange(0, 7) == "sqlite:"@);
    assert(long.subrange(0, 9) == "sqlite://"@);
    assert(long.skip(9) == path);
    assert(!occurs_at(path, "sqlite://"@, 0)) by {
        if occurs_at(path, "sqlite://"@, 0) {
            assert(path.subrange(0, 7) == path.subrange(0, 9).take(7));
        }
    }
    assert(without_start(long, "sqlite://"@) == without_start(path, "sqlite://"@));
    assert(behind_scheme(long) == path);
}

/// The parameters of a database make no difference to its lock, unless they ask for one in
/// memory or the path is made of white space.
pub proof fn law_parameters_keep_the_lock(path: Seq<char>, parameters: Seq<char>)
    requires
        is_blank(path) ==> path.len() == 0,
        !occurs_at(path, "sqlite:"@, 0),
        !occurs_at(path, "//"@, 0),
        !path.contains('?'),
        !pieces(parameters, '&').contains("mode=memory"@),
    ensures
        lock_of("sqlite:"@ + path.push('?') + parameters) == lock_of(path),
{
    reveal_strlit("sqlite:");
    lemma_parameters_are_found(path, parameters);
    let whole = path.push('?') + parameters;
    assert("sqlite:"@ + path.push('?') + parameters == "sqlite:"@ + whole);
    lemma_not_blank("sqlite:"@ + whole);
    if path.len() == 0 {
        lemma_no_file(path);
        lemma_no_file(whole);
    }
    lemma_behind_scheme(path);
    lemma_first_of(path, '?', 0);
    let j = first_of(path, '?', 0);
    if j < path.len() {
        assert(path[j] == '?');
    }
    assert(path.take(path.len() as int) == path);
}

/// A text that starts with something else than white space is not blank.
proof fn lemma_not_blank(s: Seq<char>)
    requires
        s.len() > 0,
        !is_white_space(s[0]),
    ensures
        !is_blank(s),
{
    let white = |c: char| is_white_space(c);
    assert(drop_leading(s, white) == s);
    lemma_start_stays(s, white);
}

proof fn lemma_start_stays(s: Seq<char>, p: spec_fn(char) -> bool)
    requires
        s.len() > 0,
        !p(s[0]),
    ensures
        drop_trailing(s, p).len() > 0,
    decreases s.len(),
{
    if p(s.last()) {
        lemma_start_stays(s.drop_last(), p);
    }
}

/// Where nothing stands before the parameters there is no file.
proof fn lemma_no_file(rest: Seq<char>)
    requires
        rest.len() == 0 || rest[0] == '?',
    ensures
        file_of(rest).len() == 0,
{
    reveal_strlit("file://");
    reveal_strlit("file:");
    assert(first_of(rest, '?', 0) == 0);
    assert(!rest.take(0).contains('%'));
}

/// What stands behind the scheme of a plain path is the path.
proof fn lemma_behind_scheme(path: Seq<char>)
    requires
        !occurs_at(path, "sqlite:"@, 0),
        !occurs_at(path, "//"@, 0),
    ensures
        behind_scheme(path) == path,
{
    reveal_strlit("sqlite:");
    reveal_strlit("sqlite://");
    reveal_strlit("//");
    let short = "sqlite:"@ + path;
    assert(short.subrange(0, 7) == "sqlite:"@);
    assert(short.skip(7) == path);
    assert(!occurs_at(short, "sqlite://"@, 0)) by {
        if occurs_at(short, "sqlite://"@, 0) {
            assert(short.subrange(0, 9)[7] == path[0] && short.subrange(0, 9)[8] == path[1]);
            assert(path.subrange(0, 2) == "//"@);
        }
    }
    assert(without_start(short, "sqlite:"@) == without_start(short.skip(7), "sqlite:"@));
    assert(without_start(path, "sqlite:"@) == path);
}

/// The transport of mails that name none: the configured one, or else SMTP where it is ready.
pub open spec fn fallback(configured: Option<Seq<char>>, smtp_ready: bool) -> Option<Seq<char>> {
    if configured is None && smtp_ready {
        Some("smtp"@)
    } else {
        configured
    }
}

/// The transport of mails that name none.
pub fn default_transport(config: &Config, smtp_ready: bool) -> (name: Option<String>)
    ensures
        opt_text(name) == fallback(opt_text(config.mail.default_transport), smtp_ready),
{
    if config.mail.default_transport.is_none() && smtp_ready {
        Some("smtp".to_owned())
    } else {
        copy_opt(&config.mail.default_transport)
    }
}

/// The default transport where it is not one of the transports, so that every mail that names
/// none would fail.
pub fn missing_default(default: &Option<String>, transports: &Vec<String>) -> (name: Option<String>)
    ensures
        opt_text(name) == (match opt_text(*default) {
            Some(name) => if strings(transports@).contains(name) {
                None
            } else {
                Some(name)
            },
            None => None,
        }),
{
    match default {
        Some(name) => if lists(transports, name.as_str()) {
            None
        } else {
            Some(name.clone())
        },
        None => None,
    }
}

/// The URL of a database starts with the scheme and ends with the setting.
pub proof fn law_url_has_the_scheme(database: Seq<char>)
    ensures
        occurs_at(url_of(database), "sqlite:"@, 0),
        url_of(database) == database || url_of(database) == "sqlite:"@ + database,
        !occurs_at(database, "sqlite:"@, 0) ==> url_of(database).len() == database.len() + 7,
{
    reveal_strlit("sqlite:");
    let url = "sqlite:"@ + database;
    assert(url.subrange(0, 7) == "sqlite:"@);
}

/// The lock of a database that is named by its path alone stands beside it, with `.lock` at the
/// end.
pub proof fn law_lock_stands_beside_the_database(path: Seq<char>)
    requires
        !is_white_space(path[0]) && path.len() > 0,
        !occurs_at(path, "sqlite:"@, 0),
        !occurs_at(path, "file:"@, 0),
        !occurs_at(path, "//"@, 0),
        !path.contains('?') && !path.contains('%'),
        path != ":memory:"@,
    ensures
        lock_of(path) == Some(path + ".lock"@),
{
    reveal_strlit("file:");
    reveal_strlit("file://");
    lemma_not_blank(path);
    lemma_behind_scheme(path);
    lemma_first_of(path, '?', 0);
    let i = first_of(path, '?', 0);
    if i < path.len() {
        assert(path[i] == '?');
    }
    assert(path.take(i) == path);
    if occurs_at(path, "file://"@, 0) {
        assert(path.subrange(0, 5) == path.subrange(0, 7).take(5));
        assert("file://"@.take(5) == "file:"@);
    }
}

/// A database in memory has no lock: neither one whose parameters ask for memory, whatever its
/// name is, nor `:memory:`, whatever its parameters are.
pub proof fn law_memory_has_no_lock(path: Seq<char>, parameters: Seq<char>)
    requires
        !occurs_at(path, "sqlite:"@, 0),
        !occurs_at(path, "//"@, 0),
        !path.contains('?'),
        path == ":memory:"@ || pieces(parameters, '&').contains("mode=memory"@),
    ensures
        lock_of("sqlite:"@ + path.push('?') + parameters) is None,
        path == ":memory:"@ ==> lock_of(path) is None && lock_of("sqlite:"@ + path) is None,
{
    reveal_strlit("sqlite:");
    reveal_strlit("file:");
    reveal_strlit("file://");
    if path == ":memory:"@ {
        reveal_strlit(":memory:");
        lemma_not_blank(path);
        lemma_behind_scheme(path);
        lemma_first_of(path, '?', 0);
        assert(path.take(first_of(path, '?', 0)) == path);
        assert(!path.contains('%'));
        if occurs_at(path, "file:"@, 0) {
            assert(path.subrange(0, 5)[0] == 'f');
        }
        if occurs_at(path, "file://"@, 0) {
            assert(path.subrange(0, 7)[0] == 'f');
        }
        law_path_and_urls_share_a_lock(path);
    }
    if pieces(parameters, '&').contains("mode=memory"@) {
        lemma_parameters_are_found(path, parameters);
    } else {
        law_parameters_keep_the_lock(path, parameters);
    }
}

/// The parameters are what stands behind the first question mark of a URL.
proof fn lemma_parameters_are_found(path: Seq<char>, parameters: Seq<char>)
    requires
        !occurs_at(path, "sqlite:"@, 0),
        !occurs_at(path, "//"@, 0),
        !path.contains('?'),
    ensures
        ({
            let rest = behind_scheme("sqlite:"@ + path.push('?') + parameters);
            &&& first_of(rest, '?', 0) == path.len() < rest.len()
            &&& rest.take(path.len() as int) == path
            &&& rest.skip(path.len() as int + 1) == parameters
        }),
{
    reveal_strlit("sqlite:");
    reveal_strlit("//");
    let whole = path.push('?') + parameters;
    assert("sqlite:"@ + path.push('?') + parameters == "sqlite:"@ + whole);
    assert(!occurs_at(whole, "//"@, 0)) by {
        if occurs_at(whole, "//"@, 0) {
            let start = whole.subrange(0, 2);
            if path.len() < 2 {
                assert(start[path.len() as int] == '?');
            } else {
                assert(start == path.subrange(0, 2));
            }
        }
    }
    assert(!occurs_at(whole, "sqlite:"@, 0)) by {
        if occurs_at(whole, "sqlite:"@, 0) {
            let start = whole.subrange(0, 7);
            if path.len() < 7 {
                assert(start[path.len() as int] == '?');
            } else {
                assert(start == path.subrange(0, 7));
            }
        }
    }
    assert(("sqlite:"@ + whole).subrange(0, 7) == "sqlite:"@);
    assert(url_of("sqlite:"@ + whole) == url_of(whole));
    lemma_behind_scheme(whole);
    lemma_first_of(whole, '?', 0);
    let i = first_of(whole, '?', 0);
    let n = path.len() as int;
    assert(whole[n] == '?');
    if i < n {
        assert(path[i] == '?');
    }
    assert(whole.take(n) == path);
    assert(whole.skip(n + 1) == parameters);
}

/// The configured transport is the default one whether SMTP is ready or not. Without one, SMTP is
/// where it is ready, and none is otherwise.
pub proof fn law_configured_transport_is_the_default(configured: Option<Seq<char>>, ready: bool)
    ensures
        configured is Some ==> fallback(configured, ready) == configured,
        configured is None && ready ==> fallback(configured, ready) == Some("smtp"@),
        configured is None && !ready ==> fallback(configured, ready) is None,
{
}

/// The settings of the dispatcher are those of the configuration, with times in seconds.
pub proof fn law_settings_reach_the_dispatcher(config: &Config, c: DispatcherConfig)
    requires
        call_ensures(dispatcher_config, (config,), c),
    ensures
        c.batch_size == config.dispatcher.batch_size,
        c.concurrency == config.dispatcher.concurrency,
        c.poll_interval.length() == config.dispatcher.poll_interval_secs * 1_000_000_000,
        c.sending_lease.length() == config.dispatcher.sending_lease_secs * 1_000_000_000,
        c.retry.max_attempts == config.dispatcher.max_attempts,
        c.retry.base_delay.length() == config.dispatcher.retry_base_secs * 1_000_000_000,
        c.retry.max_delay.length() == config.dispatcher.retry_max_secs * 1_000_000_000,
{
}

/// A default transport is reported as missing exactly when it is not one of the transports.
pub proof fn law_missing_default_is_reported(
    default: &Option<String>,
    transports: &Vec<String>,
    name: Option<String>,
)
    requires
        call_ensures(missing_default, (default, transports), name),
    ensures
        name is Some <==> *default is Some && forall|i: int|
            0 <= i < transports@.len() ==> (#[trigger] transports@[i])@ != default->0@,
        name matches Some(missing) ==> missing@ == default->0@,
{
    let list = strings(transports@);
    if let Some(wished) = *default {
        if list.contains(wished@) {
            let i = choose|i: int| 0 <= i < list.len() && list[i] == wished@;
            assert(transports@[i]@ == wished@);
        }
        if exists|i: int| 0 <= i < transports@.len() && (#[trigger] transports@[i])@ == wished@ {
            let i = choose|i: int|
                0 <= i < transports@.len() && (#[trigger] transports@[i])@ == wished@;
            assert(list[i] == wished@);
        }
    }
}

/// A path and the URL that the database is opened by have the same lock.
pub proof fn law_lock_follows_the_url(
    database: &str,
    url: String,
    other: &str,
    lock: Option<String>,
    again: Option<String>,
)
    requires
        call_ensures(sqlite_url, (database,), url),
        other@ == url@,
        call_ensures(lock_path, (database,), lock),
        call_ensures(lock_path, (other,), again),
        !is_blank(database@),
    ensures
        opt_text(lock) == opt_text(again),
{
    reveal_strlit("sqlite:");
    law_url_is_stable(database@);
    if !occurs_at(database@, "sqlite:"@, 0) {
        lemma_not_blank("sqlite:"@ + database@);
    }
    law_same_url_same_lock(database@, url@);
}

} // verus!
