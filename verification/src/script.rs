//! What plugin scripts are handed and what they hand back, as plain values.

use vstd::prelude::*;

use crate::error::CoreError;
use crate::http::{HttpBody, HttpClient, HttpRequest, HttpResponse};
use crate::message::{Address, Mail};
use crate::table::TextMap;
use crate::text::join;

verus! {

use crate::config::texts;
use crate::http::{pair_views, BodyView, RequestView};
use crate::message::{addresses, AddressView, MailView};
use crate::table::{law_lookup_finds_the_entry, lemma_inserted_last, lemma_lookup_at, lookup};
use crate::text::{contains_text, ends_with_text, occurs_at};

/// A value that a script puts into a map of headers or of form fields.
#[derive(Debug, Clone)]
pub enum ScriptArg {
    /// A string.
    Text(String),
    /// A value of the type of this name.
    Other(String),
}

/// A value that a script is handed.
#[derive(Debug, Clone)]
pub enum ScriptValue {
    /// A string.
    Text(String),
    /// A number.
    Number(i64),
    /// A map of strings.
    Table(TextMap<String>),
    /// A list of maps of strings.
    Tables(Vec<TextMap<String>>),
}

/// What a [`ScriptValue`] stands for.
pub enum ValueView {
    Text(Seq<char>),
    Number(int),
    Table(Seq<(Seq<char>, Seq<char>)>),
    Tables(Seq<Seq<(Seq<char>, Seq<char>)>>),
}

/// What a list of maps of strings stands for.
pub open spec fn tables(list: Seq<TextMap<String>>) -> Seq<Seq<(Seq<char>, Seq<char>)>> {
    list.map_values(|t: TextMap<String>| texts(t@))
}

impl View for ScriptValue {
    type V = ValueView;

    open spec fn view(&self) -> ValueView {
        match *self {
            ScriptValue::Text(text) => ValueView::Text(text@),
            ScriptValue::Number(n) => ValueView::Number(n as int),
            ScriptValue::Table(table) => ValueView::Table(texts(table@)),
            ScriptValue::Tables(list) => ValueView::Tables(tables(list@)),
        }
    }
}

/// What a map of values stands for.
pub open spec fn values(entries: Seq<(Seq<char>, ScriptValue)>) -> Seq<(Seq<char>, ValueView)> {
    entries.map_values(|e: (Seq<char>, ScriptValue)| (e.0, e.1@))
}

/// The position of the first entry from `from` on that is not a string; the number of entries
/// where there is none.
pub open spec fn first_other(entries: Seq<(Seq<char>, ScriptArg)>, from: int) -> int
    decreases entries.len() - from,
{
    if from >= entries.len() {
        entries.len() as int
    } else if entries[from].1 is Other {
        from
    } else {
        first_other(entries, from + 1)
    }
}

/// The entries of a map of strings as pairs in the order of their keys, or what is said of the
/// first entry that is not a string.
pub open spec fn pairs_of(entries: Seq<(Seq<char>, ScriptArg)>) -> Result<
    Seq<(Seq<char>, Seq<char>)>,
    Seq<char>,
> {
    let i = first_other(entries, 0);
    if i < entries.len() {
        Err(
            "value for '"@ + entries[i].0 + "' must be a string, got "@ + entries[i].1->Other_0@,
        )
    } else {
        Ok(entries.map_values(|e: (Seq<char>, ScriptArg)| (e.0, e.1->Text_0@)))
    }
}

/// `pair` holds the key and the string of `entry`.
spec fn is_pair(entry: (Seq<char>, ScriptArg), pair: (String, String)) -> bool {
    entry.1 is Text && pair.0@ == entry.0 && pair.1@ == entry.1->Text_0@
}

/// The entries of a map of strings as pairs.
pub fn map_to_pairs(map: &TextMap<ScriptArg>) -> (pairs: Result<Vec<(String, String)>, String>)
    ensures
        match pairs {
            Ok(pairs) => pairs_of(map@) matches Ok(list) && list == pair_views(pairs@),
            Err(e) => pairs_of(map@) matches Err(detail) && detail == e@,
        },
{
    let n: usize = map.len();
    let mut pairs: Vec<(String, String)> = Vec::new();
    let mut i: usize = 0;
    while i < n
        invariant
            i <= n == map@.len(),
            pairs@.len() == i,
            first_other(map@, 0) == first_other(map@, i as int),
            forall|j: int| 0 <= j < i ==> #[trigger] is_pair(map@[j], pairs@[j]),
        decreases n - i,
    {
        let ghost before = pairs@;
        let text = match map.value_at(i) {
            ScriptArg::Text(text) => text,
            ScriptArg::Other(actual) => {
                let mut e = join("value for '", map.key_at(i).as_str());
                e.append("' must be a string, got ");
                e.append(actual.as_str());
                return Err(e);
            },
        };
        let pair = (map.key_at(i).clone(), text.clone());
        pairs.push(pair);
        assert(is_pair(map@[i as int], pairs@[i as int]));
        assert forall|j: int| 0 <= j < i implies #[trigger] is_pair(map@[j], pairs@[j]) by {
            assert(is_pair(map@[j], before[j]));
        }
        i += 1;
    }
    assert forall|j: int| 0 <= j < n implies #[trigger] pair_views(pairs@)[j] == (
        map@[j].0,
        map@[j].1->Text_0@,
    ) by {
        assert(is_pair(map@[j], pairs@[j]));
    }
    assert(pair_views(pairs@) == map@.map_values(
        |e: (Seq<char>, ScriptArg)| (e.0, e.1->Text_0@),
    ));
    Ok(pairs)
}

/// `request` is the request of the given method, target, headers and body, where the headers and
/// the form are maps of strings; else it says what is wrong with them.
pub open spec fn is_request(
    request: Result<HttpRequest, String>,
    method: Seq<char>,
    url: Seq<char>,
    headers: Result<Seq<(Seq<char>, Seq<char>)>, Seq<char>>,
    body: Result<BodyView, Seq<char>>,
) -> bool {
    match request {
        Ok(r) => headers matches Ok(h) && body matches Ok(b) && r@ == (RequestView {
            method,
            url,
            headers: h,
            body: b,
        }),
        Err(e) => match headers {
            Err(detail) => e@ == detail,
            Ok(_) => body matches Err(detail) && e@ == detail,
        },
    }
}

/// The body of a form.
pub open spec fn form_body(pairs: Result<Seq<(Seq<char>, Seq<char>)>, Seq<char>>) -> Result<
    BodyView,
    Seq<char>,
> {
    match pairs {
        Ok(list) => Ok(BodyView::Form(list)),
        Err(detail) => Err(detail),
    }
}

/// The request of the host function `http_get`.
pub fn get_request(url: &str, headers: &TextMap<ScriptArg>) -> (request: Result<
    HttpRequest,
    String,
>)
    ensures
        is_request(request, "GET"@, url@, pairs_of(headers@), Ok(BodyView::Empty)),
{
    match map_to_pairs(headers) {
        Ok(headers) => Ok(
            HttpRequest {
                method: "GET".to_owned(),
                url: url.to_owned(),
                headers,
                body: HttpBody::Empty,
            },
        ),
        Err(e) => Err(e),
    }
}

/// The request of the host function `http_post`.
pub fn post_request(url: &str, headers: &TextMap<ScriptArg>, body: &str) -> (request: Result<
    HttpRequest,
    String,
>)
    ensures
        is_request(request, "POST"@, url@, pairs_of(headers@), Ok(BodyView::Text(body@))),
{
    match map_to_pairs(headers) {
        Ok(headers) => Ok(
            HttpRequest {
                method: "POST".to_owned(),
                url: url.to_owned(),
                headers,
                body: HttpBody::Text(body.to_owned()),
            },
        ),
        Err(e) => Err(e),
    }
}

/// The request of the host function `http_post_form`.
pub fn form_request(
    url: &str,
    headers: &TextMap<ScriptArg>,
    form: &TextMap<ScriptArg>,
) -> (request: Result<HttpRequest, String>)
    ensures
        is_request(request, "POST"@, url@, pairs_of(headers@), form_body(pairs_of(form@))),
{
    let headers = match map_to_pairs(headers) {
        Ok(headers) => headers,
        Err(e) => {
            return Err(e);
        },
    };
    match map_to_pairs(form) {
        Ok(form) => Ok(
            HttpRequest {
                method: "POST".to_owned(),
                url: url.to_owned(),
                headers,
                body: HttpBody::Form(form),
            },
        ),
        Err(e) => Err(e),
    }
}

/// The map that a script is handed for a response.
pub open spec fn response_view(response: HttpResponse) -> Seq<(Seq<char>, ValueView)> {
    seq![
        ("body"@, ValueView::Text(response.body@)),
        ("status"@, ValueView::Number(response.status as int)),
    ]
}

/// `answer` is what a script is handed for what came of a request.
pub open spec fn is_answer(
    answer: Result<TextMap<ScriptValue>, String>,
    outcome: Result<HttpResponse, String>,
) -> bool {
    match outcome {
        Ok(response) => answer matches Ok(map) && values(map@) == response_view(response),
        Err(e) => answer matches Err(text) && text@ == "http error: "@ + e@,
    }
}

/// What a script is handed for what came of a request: a map of the status and the body, or an
/// error.
pub fn answer(outcome: Result<HttpResponse, String>) -> (answer: Result<
    TextMap<ScriptValue>,
    String,
>)
    ensures
        is_answer(answer, outcome),
{
    match outcome {
        Ok(response) => {
            let ghost view = response_view(response);
            let mut map: TextMap<ScriptValue> = TextMap::new();
            let status = ScriptValue::Number(response.status as i64);
            let body = ScriptValue::Text(response.body);
            proof {
                reveal_strlit("body");
                reveal_strlit("status");
                assert("body"@[0] == 'b' && "status"@[0] == 's');
                lemma_inserted_last(map@, "body"@, body);
                lemma_inserted_last(map@.push(("body"@, body)), "status"@, status);
            }
            map.insert("body".to_owned(), body);
            map.insert("status".to_owned(), status);
            assert(values(map@) == view);
            Ok(map)
        },
        Err(e) => Err(join("http error: ", e.as_str())),
    }
}

/// Carries out a request of a script and hands it what came of it.
pub fn exec<C: HttpClient + ?Sized>(http: &C, request: HttpRequest) -> (result: Result<
    TextMap<ScriptValue>,
    String,
>)
    ensures
        exists|outcome: Result<HttpResponse, String>|
            #[trigger] call_ensures(C::execute, (http, request), outcome) && is_answer(
                result,
                outcome,
            ),
{
    let outcome = http.execute(request);
    answer(outcome)
}

/// The map that a script is handed for an address.
pub open spec fn address_view(addr: AddressView) -> Seq<(Seq<char>, Seq<char>)> {
    match addr.name {
        Some(name) => seq![("email"@, addr.email), ("name"@, name)],
        None => seq![("email"@, addr.email)],
    }
}

/// The map that a script is handed for an address.
fn address_to_map(addr: &Address) -> (map: TextMap<String>)
    ensures
        texts(map@) == address_view(addr@),
{
    let mut map: TextMap<String> = TextMap::new();
    let email = addr.email.clone();
    proof {
        reveal_strlit("email");
        reveal_strlit("name");
        assert("email"@[0] == 'e' && "name"@[0] == 'n');
        lemma_inserted_last(map@, "email"@, email);
    }
    map.insert("email".to_owned(), email);
    assert(texts(map@) == seq![("email"@, addr.email@)]);
    if let Some(name) = &addr.name {
        let name = name.clone();
        proof {
            lemma_inserted_last(map@, "name"@, name);
        }
        map.insert("name".to_owned(), name);
        assert(texts(map@) == address_view(addr@));
    }
    map
}

/// The maps that a script is handed for a list of addresses.
pub open spec fn address_list_view(list: Seq<AddressView>) -> Seq<Seq<(Seq<char>, Seq<char>)>> {
    list.map_values(|a: AddressView| address_view(a))
}

/// The maps that a script is handed for a list of addresses.
fn addresses_to_maps(list: &Vec<Address>) -> (maps: Vec<TextMap<String>>)
    ensures
        tables(maps@) == address_list_view(addresses(list@)),
{
    let ghost views = address_list_view(addresses(list@));
    let mut maps: Vec<TextMap<String>> = Vec::new();
    let mut i: usize = 0;
    while i < list.len()
        invariant
            i <= list@.len(),
            views == address_list_view(addresses(list@)),
            tables(maps@) == views.take(i as int),
        decreases list@.len() - i,
    {
        let ghost before = tables(maps@);
        let map = address_to_map(&list[i]);
        let ghost view = texts(map@);
        maps.push(map);
        assert(tables(maps@) == before.push(view));
        assert(view == views[i as int]);
        assert(views.take(i + 1) == views.take(i as int).push(view));
        i += 1;
    }
    assert(views.take(list@.len() as int) == views);
    maps
}

/// The map that a script is handed for a mail.
pub open spec fn mail_map(mail: MailView) -> Seq<(Seq<char>, ValueView)> {
    seq![
        ("body"@, ValueView::Text(mail.body)),
        ("from"@, ValueView::Table(address_view(mail.from))),
        ("subject"@, ValueView::Text(mail.subject)),
        ("to"@, ValueView::Tables(address_list_view(mail.to))),
    ]
}

/// The map that a script is handed for a mail: its sender, its recipients, its subject and its
/// body.
pub fn mail_to_map(mail: &Mail) -> (map: TextMap<ScriptValue>)
    ensures
        values(map@) == mail_map(mail@),
{
    let mut map: TextMap<ScriptValue> = TextMap::new();
    let body = ScriptValue::Text(mail.body.clone());
    let from = ScriptValue::Table(address_to_map(&mail.from));
    let subject = ScriptValue::Text(mail.subject.clone());
    let to = ScriptValue::Tables(addresses_to_maps(&mail.to));
    let ghost entries = seq![("body"@, body), ("from"@, from), ("subject"@, subject), ("to"@, to)];
    proof {
        reveal_strlit("body");
        reveal_strlit("from");
        reveal_strlit("subject");
        reveal_strlit("to");
        assert("body"@[0] == 'b' && "from"@[0] == 'f' && "subject"@[0] == 's' && "to"@[0] == 't');
        assert(map@ == entries.take(0));
        assert(entries.take(0).push(entries[0]) == entries.take(1));
        assert(entries.take(1).push(entries[1]) == entries.take(2));
        assert(entries.take(2).push(entries[2]) == entries.take(3));
        assert(entries.take(3).push(entries[3]) == entries);
        lemma_inserted_last(entries.take(0), "body"@, body);
        lemma_inserted_last(entries.take(1), "from"@, from);
        lemma_inserted_last(entries.take(2), "subject"@, subject);
        lemma_inserted_last(entries.take(3), "to"@, to);
    }
    map.insert("body".to_owned(), body);
    map.insert("from".to_owned(), from);
    map.insert("subject".to_owned(), subject);
    map.insert("to".to_owned(), to);
    assert(values(map@) == mail_map(mail@));
    map
}

/// The map that a script is handed for its settings.
pub open spec fn settings_map(settings: Seq<(Seq<char>, Seq<char>)>) -> Seq<
    (Seq<char>, ValueView),
> {
    settings.map_values(|e: (Seq<char>, Seq<char>)| (e.0, ValueView::Text(e.1)))
}

/// The map that a script is handed for its settings.
pub fn string_config_map(settings: &TextMap<String>) -> (map: TextMap<ScriptValue>)
    ensures
        values(map@) == settings_map(texts(settings@)),
{
    let ghost views = settings_map(texts(settings@));
    let mut map: TextMap<ScriptValue> = TextMap::new();
    let n: usize = settings.len();
    let mut i: usize = 0;
    assert(values(map@) == views.take(0));
    while i < n
        invariant
            i <= n == settings@.len(),
            views == settings_map(texts(settings@)),
            crate::table::ascending(settings@),
            map@.len() == i,
            values(map@) == views.take(i as int),
        decreases n - i,
    {
        let key = settings.key_at(i).clone();
        let value = ScriptValue::Text(settings.value_at(i).clone());
        let ghost before = map@;
        proof {
            assert forall|j: int| 0 <= j < before.len() implies crate::text::text_less(
                #[trigger] before[j].0,
                key@,
            ) by {
                assert(values(before)[j].0 == views[j].0);
                assert(crate::text::text_less(settings@[j].0, settings@[i as int].0));
            }
            lemma_inserted_last(before, key@, value);
        }
        map.insert(key, value);
        assert(values(map@) == values(before).push(views[i as int]));
        assert(views.take(i + 1) == views.take(i as int).push(views[i as int]));
        i += 1;
    }
    assert(views.take(n as int) == views);
    map
}

/// What the delivery by a script comes to: the script ran or threw, or could not be run at all.
pub fn plugin_result(outcome: Result<Result<(), String>, String>) -> (result: Result<(), CoreError>)
    ensures
        match outcome {
            Ok(Ok(())) => result is Ok,
            Ok(Err(e)) => result matches Err(err) && err is Transport && err.text()
                == "transport error: plugin send: "@ + e@,
            Err(e) => result matches Err(err) && err is Transport && err.text()
                == "transport error: plugin task failed: "@ + e@,
        },
{
    proof {
        reveal_strlit("transport error: ");
        reveal_strlit("plugin send: ");
        reveal_strlit("plugin task failed: ");
        reveal_strlit("transport error: plugin send: ");
        reveal_strlit("transport error: plugin task failed: ");
        assert("transport error: "@ + "plugin send: "@ == "transport error: plugin send: "@);
        assert("transport error: "@ + "plugin task failed: "@
            == "transport error: plugin task failed: "@);
    }
    match outcome {
        Ok(Ok(())) => Ok(()),
        Ok(Err(e)) => {
            assert("transport error: "@ + ("plugin send: "@ + e@) == (("transport error: "@
                + "plugin send: "@) + e@));
            Err(CoreError::Transport(join("plugin send: ", e.as_str())))
        },
        Err(e) => {
            assert("transport error: "@ + ("plugin task failed: "@ + e@) == (("transport error: "@
                + "plugin task failed: "@) + e@));
            Err(CoreError::Transport(join("plugin task failed: ", e.as_str())))
        },
    }
}

/// A script finds each part of a mail under its name, and nothing else.
pub proof fn law_script_finds_the_mail(mail: MailView)
    ensures
        mail_map(mail).len() == 4,
        lookup(mail_map(mail), "subject"@) == Some(ValueView::Text(mail.subject)),
        lookup(mail_map(mail), "body"@) == Some(ValueView::Text(mail.body)),
        lookup(mail_map(mail), "from"@) matches Some(ValueView::Table(from)) && from
            == address_view(mail.from),
        lookup(mail_map(mail), "to"@) matches Some(ValueView::Tables(to)) && to.len()
            == mail.to.len() && forall|i: int|
            0 <= i < to.len() ==> #[trigger] to[i] == address_view(mail.to[i]),
{
    reveal_strlit("body");
    reveal_strlit("from");
    reveal_strlit("subject");
    reveal_strlit("to");
    assert("body"@[0] == 'b' && "from"@[0] == 'f' && "subject"@[0] == 's' && "to"@[0] == 't');
    let map = mail_map(mail);
    assert(map[0].0 == "body"@ && map[1].0 == "from"@);
    assert(map[2].0 == "subject"@ && map[3].0 == "to"@);
    lemma_lookup_at(map, 0);
    lemma_lookup_at(map, 1);
    lemma_lookup_at(map, 2);
    lemma_lookup_at(map, 3);
}

/// A script finds the address of a mailbox, and its display name exactly where there is one.
pub proof fn law_script_finds_the_address(addr: AddressView)
    ensures
        lookup(address_view(addr), "email"@) == Some(addr.email),
        lookup(address_view(addr), "name"@) == addr.name,
{
    reveal_strlit("email");
    reveal_strlit("name");
    assert("email"@[0] == 'e' && "name"@[0] == 'n');
    let map = address_view(addr);
    assert(map[0].0 == "email"@);
    lemma_lookup_at(map, 0);
    if addr.name is Some {
        assert(map[1].0 == "name"@);
        lemma_lookup_at(map, 1);
    } else {
        law_lookup_finds_the_entry(map, "name"@);
    }
}

/// A script finds the status and the body of a response.
pub proof fn law_script_finds_the_response(response: HttpResponse)
    ensures
        lookup(response_view(response), "status"@) == Some(
            ValueView::Number(response.status as int),
        ),
        lookup(response_view(response), "body"@) == Some(ValueView::Text(response.body@)),
        response_view(response).len() == 2,
{
    reveal_strlit("body");
    reveal_strlit("status");
    assert("body"@[0] == 'b' && "status"@[0] == 's');
    let map = response_view(response);
    assert(map[0].0 == "body"@ && map[1].0 == "status"@);
    lemma_lookup_at(map, 0);
    lemma_lookup_at(map, 1);
}

/// A script finds every setting as text under its key, in the same order.
pub proof fn law_script_finds_its_settings(settings: Seq<(Seq<char>, Seq<char>)>)
    ensures
        settings_map(settings).len() == settings.len(),
        forall|i: int|
            0 <= i < settings.len() ==> (#[trigger] settings_map(settings)[i]).0 == settings[i].0
                && settings_map(settings)[i].1 == ValueView::Text(settings[i].1),
{
}

/// A map of strings becomes its pairs, in order. Where an entry is not a string the error names
/// the key and the type of the first such entry.
pub proof fn law_maps_become_pairs(entries: Seq<(Seq<char>, ScriptArg)>)
    ensures
        match pairs_of(entries) {
            Ok(pairs) => pairs.len() == entries.len() && forall|i: int|
                0 <= i < entries.len() ==> (#[trigger] entries[i]).1 is Text && pairs[i].0
                    == entries[i].0 && pairs[i].1 == entries[i].1->Text_0@,
            Err(text) => exists|i: int|
                {
                    &&& 0 <= i < entries.len()
                    &&& (#[trigger] entries[i]).1 is Other
                    &&& contains_text(text, entries[i].0)
                    &&& ends_with_text(text, entries[i].1->Other_0@)
                    &&& forall|j: int| 0 <= j < i ==> (#[trigger] entries[j]).1 is Text
                },
        },
{
    lemma_first_other(entries, 0);
    let i = first_other(entries, 0);
    if i < entries.len() {
        let head = "value for '"@;
        let key = entries[i].0;
        let tail = entries[i].1->Other_0@;
        let text = head + key + "' must be a string, got "@ + tail;
        assert(text.subrange(head.len() as int, (head.len() + key.len()) as int) == key);
        assert(occurs_at(text, key, head.len() as int));
        assert(text.subrange(text.len() - tail.len(), text.len() as int) == tail);
        assert(pairs_of(entries) == Err::<Seq<(Seq<char>, Seq<char>)>, Seq<char>>(text));
    }
}

proof fn lemma_first_other(entries: Seq<(Seq<char>, ScriptArg)>, from: int)
    requires
        0 <= from <= entries.len(),
    ensures
        from <= first_other(entries, from) <= entries.len(),
        first_other(entries, from) < entries.len() ==> entries[first_other(entries, from)].1
            is Other,
        forall|j: int| from <= j < first_other(entries, from) ==> (#[trigger] entries[j]).1 is Text,
    decreases entries.len() - from,
{
    if from < entries.len() && !(entries[from].1 is Other) {
        lemma_first_other(entries, from + 1);
    }
}

/// A request is made exactly when its headers and its body are maps of strings, and then with the
/// method, the target, the headers and the body that were asked for.
pub proof fn law_request_is_the_one_asked_for(
    request: Result<HttpRequest, String>,
    method: Seq<char>,
    url: Seq<char>,
    headers: Result<Seq<(Seq<char>, Seq<char>)>, Seq<char>>,
    body: Result<BodyView, Seq<char>>,
)
    requires
        is_request(request, method, url, headers, body),
    ensures
        request is Ok <==> headers is Ok && body is Ok,
        request matches Ok(r) ==> {
            &&& r.method@ == method
            &&& r.url@ == url
            &&& headers == Ok::<_, Seq<char>>(pair_views(r.headers@))
            &&& body == Ok::<_, Seq<char>>(r.body@)
        },
        request matches Err(e) ==> (if headers is Err {
            headers->Err_0 == e@
        } else {
            body is Err && body->Err_0 == e@
        }),
{
}

/// The body of a form holds the pairs of its fields.
pub proof fn law_form_holds_its_fields(pairs: Result<Seq<(Seq<char>, Seq<char>)>, Seq<char>>)
    ensures
        pairs matches Ok(list) ==> (form_body(pairs) matches Ok(BodyView::Form(fields)) && fields
            == list),
        pairs matches Err(detail) ==> (form_body(pairs) matches Err(text) && text == detail),
{
}

/// A script is handed the response to its request, or an error that ends with what went wrong.
pub proof fn law_script_is_answered(
    outcome: Result<HttpResponse, String>,
    result: Result<TextMap<ScriptValue>, String>,
)
    requires
        call_ensures(answer, (outcome,), result),
    ensures
        outcome matches Ok(response) ==> (result matches Ok(map) && {
            &&& lookup(values(map@), "status"@) == Some(ValueView::Number(response.status as int))
            &&& lookup(values(map@), "body"@) == Some(ValueView::Text(response.body@))
        }),
        outcome matches Err(e) ==> (result matches Err(text) && ends_with_text(text@, e@)),
{
    match outcome {
        Ok(response) => {
            law_script_finds_the_response(response);
        },
        Err(e) => {
            let text = "http error: "@ + e@;
            assert(text.subrange(text.len() - e@.len(), text.len() as int) == e@);
        },
    }
}

/// The view of a value that a script is handed holds the value, and that of a map every entry.
pub proof fn law_views_of_script_values(
    value: ScriptValue,
    entries: Seq<(Seq<char>, ScriptValue)>,
    list: Seq<TextMap<String>>,
)
    ensures
        match value {
            ScriptValue::Text(text) => value@ == ValueView::Text(text@),
            ScriptValue::Number(n) => value@ == ValueView::Number(n as int),
            ScriptValue::Table(map) => value@ == ValueView::Table(texts(map@)),
            ScriptValue::Tables(maps) => value@ == ValueView::Tables(tables(maps@)),
        },
        values(entries).len() == entries.len(),
        forall|i: int|
            0 <= i < entries.len() ==> (#[trigger] values(entries)[i]).0 == entries[i].0 && values(
                entries,
            )[i].1 == entries[i].1@,
        tables(list).len() == list.len(),
        forall|i: int| 0 <= i < list.len() ==> #[trigger] tables(list)[i] == texts(list[i]@),
{
}

/// The requests of scripts go out with the method of the host function, the target and the body
/// that the script handed over.
pub proof fn law_requests_of_scripts(
    url: &str,
    headers: &TextMap<ScriptArg>,
    body: &str,
    form: &TextMap<ScriptArg>,
    got: Result<HttpRequest, String>,
    posted: Result<HttpRequest, String>,
    sent: Result<HttpRequest, String>,
)
    requires
        call_ensures(get_request, (url, headers), got),
        call_ensures(post_request, (url, headers, body), posted),
        call_ensures(form_request, (url, headers, form), sent),
    ensures
        got is Ok <==> pairs_of(headers@) is Ok,
        posted is Ok <==> pairs_of(headers@) is Ok,
        sent is Ok <==> pairs_of(headers@) is Ok && pairs_of(form@) is Ok,
        got matches Ok(r) ==> r.method@ == "GET"@ && r.url@ == url@ && r.body is Empty && pairs_of(
            headers@,
        ) == Ok::<_, Seq<char>>(pair_views(r.headers@)),
        posted matches Ok(r) ==> r.method@ == "POST"@ && r.url@ == url@ && (
        r.body matches HttpBody::Text(text) && text@ == body@) && pairs_of(headers@) == Ok::<
            _,
            Seq<char>,
        >(pair_views(r.headers@)),
        sent matches Ok(r) ==> r.method@ == "POST"@ && r.url@ == url@ && (
        r.body matches HttpBody::Form(fields) && pairs_of(form@) == Ok::<_, Seq<char>>(
            pair_views(fields@),
        )) && pairs_of(headers@) == Ok::<_, Seq<char>>(pair_views(r.headers@)),
{
}

/// What a script is handed for a mail holds its subject and its body, and for its settings every
/// one of them.
pub proof fn law_scripts_are_handed_mail_and_settings(
    mail: &Mail,
    map: TextMap<ScriptValue>,
    settings: &TextMap<String>,
    config: TextMap<ScriptValue>,
)
    requires
        call_ensures(mail_to_map, (mail,), map),
        call_ensures(string_config_map, (settings,), config),
    ensures
        lookup(values(map@), "subject"@) == Some(ValueView::Text(mail.subject@)),
        lookup(values(map@), "body"@) == Some(ValueView::Text(mail.body@)),
        lookup(values(map@), "from"@) matches Some(ValueView::Table(from)) && lookup(
            from,
            "email"@,
        ) == Some(mail.from.email@),
        lookup(values(map@), "to"@) matches Some(ValueView::Tables(to)) && to.len()
            == mail.to@.len() && forall|i: int|
            0 <= i < to.len() ==> lookup(#[trigger] to[i], "email"@) == Some(mail.to@[i].email@),
        values(config@).len() == settings@.len(),
        forall|i: int|
            0 <= i < settings@.len() ==> (#[trigger] values(config@)[i]).0 == settings@[i].0
                && values(config@)[i].1 == ValueView::Text(settings@[i].1@),
{
    law_script_finds_the_mail(mail@);
    law_script_finds_the_address(mail@.from);
    law_script_finds_its_settings(texts(settings@));
    assert forall|i: int| 0 <= i < mail.to@.len() implies lookup(
        #[trigger] address_list_view(mail@.to)[i],
        "email"@,
    ) == Some(mail.to@[i].email@) by {
        law_script_finds_the_address(mail@.to[i]);
        assert(mail@.to[i] == mail.to@[i]@);
    }
    assert(mail@.to.len() == mail.to@.len());
}

/// A delivery by a script succeeds exactly when the script ran without an error; else the error
/// is one of the transport and ends with what went wrong.
pub proof fn law_script_decides_the_delivery(
    outcome: Result<Result<(), String>, String>,
    result: Result<(), CoreError>,
)
    requires
        call_ensures(plugin_result, (outcome,), result),
    ensures
        result is Ok <==> outcome is Ok && outcome->Ok_0 is Ok,
        result matches Err(e) ==> e is Transport && ends_with_text(
            e.text(),
            match outcome {
                Err(detail) => detail@,
                Ok(Err(detail)) => detail@,
                Ok(Ok(())) => Seq::empty(),
            },
        ),
{
    match outcome {
        Ok(Err(detail)) => {
            let text = "transport error: plugin send: "@ + detail@;
            assert(text.subrange(text.len() - detail@.len(), text.len() as int) == detail@);
        },
        Err(detail) => {
            let text = "transport error: plugin task failed: "@ + detail@;
            assert(text.subrange(text.len() - detail@.len(), text.len() as int) == detail@);
        },
        _ => {},
    }
}

} // verus!
