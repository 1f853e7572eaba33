//! Routing: which transports carry the mail of a sender, and who receives it.

use vstd::prelude::*;

use crate::message::{copy_addresses, Address};
use crate::table::TextMap;
use crate::text::{copy_opt, same_text};

verus! {

use crate::message::{addresses, AddressView};
use crate::table::{lemma_position_of, lookup};
use crate::text::{opt_text, strings};

/// Routing rules.
#[derive(Debug, Clone)]
pub struct RoutingConfig {
    /// Rule of senders without one of their own.
    pub default: Option<RouteRule>,
    /// Rules of single senders, by sender address.
    pub senders: TextMap<RouteRule>,
}

/// The rule of one sender.
#[derive(Debug, Clone)]
pub struct RouteRule {
    /// Transport of the sender's mail, or `reject`.
    pub transport: Option<String>,
    /// Recipients that take the place of those of the envelope, where there are any.
    pub recipients: Vec<String>,
    /// Several channels at once; where there are any, they take the place of `transport`.
    pub targets: Vec<RouteTarget>,
}

/// One channel of a rule.
#[derive(Debug, Clone)]
pub struct RouteTarget {
    /// Transport of this channel, or `reject`.
    pub transport: String,
    /// Recipients that take the place of those of the envelope, where there are any.
    pub recipients: Vec<String>,
}

impl RoutingConfig {
    /// Routing decides about mails: there is a rule or a default.
    pub open spec fn active(self) -> bool {
        self.default is Some || self.senders@.len() > 0
    }
}

impl Default for RoutingConfig {
    fn default() -> (c: Self)
        ensures
            c.default is None,
            c.senders@.len() == 0,
    {
        RoutingConfig { default: None, senders: TextMap::new() }
    }
}

/// One entry that a mail becomes in the queue.
#[derive(Debug)]
pub struct Route {
    /// Transport of the entry; the default one where there is none.
    pub transport: Option<String>,
    /// Recipients of the entry.
    pub recipients: Vec<Address>,
}

/// What a [`Route`] stands for.
pub struct RouteView {
    pub transport: Option<Seq<char>>,
    pub recipients: Seq<AddressView>,
}

impl View for Route {
    type V = RouteView;

    open spec fn view(&self) -> RouteView {
        RouteView {
            transport: opt_text(self.transport),
            recipients: addresses(self.recipients@),
        }
    }
}

/// What a list of routes stands for.
pub open spec fn route_views(list: Seq<Route>) -> Seq<RouteView> {
    list.map_values(|r: Route| r@)
}

/// The plain addresses of a list of texts.
pub open spec fn plain_addresses(emails: Seq<Seq<char>>) -> Seq<AddressView> {
    emails.map_values(|email: Seq<char>| AddressView { email, name: None })
}

/// The recipients of a channel: its own, or else those of the envelope.
pub open spec fn receivers(own: Seq<Seq<char>>, envelope: Seq<AddressView>) -> Seq<AddressView> {
    if own.len() == 0 {
        envelope
    } else {
        plain_addresses(own)
    }
}

/// The entries of several channels, in their order. A channel that rejects is skipped.
pub open spec fn fan_out(targets: Seq<RouteTarget>, envelope: Seq<AddressView>) -> Seq<RouteView>
    decreases targets.len(),
{
    if targets.len() == 0 {
        Seq::empty()
    } else {
        let before = fan_out(targets.drop_last(), envelope);
        let target = targets.last();
        if target.transport@ == "reject"@ {
            before
        } else {
            before.push(
                RouteView {
                    transport: Some(target.transport@),
                    recipients: receivers(strings(target.recipients@), envelope),
                },
            )
        }
    }
}

impl RouteRule {
    /// The entries that a mail becomes under this rule; none where it is rejected.
    pub open spec fn entries(self, envelope: Seq<AddressView>) -> Seq<RouteView> {
        if self.targets@.len() > 0 {
            fan_out(self.targets@, envelope)
        } else if opt_text(self.transport) == Some("reject"@) {
            Seq::empty()
        } else {
            seq![
                RouteView {
                    transport: opt_text(self.transport),
                    recipients: receivers(strings(self.recipients@), envelope),
                },
            ]
        }
    }

    /// The entries that a mail becomes under this rule.
    fn routes(&self, envelope: &Vec<Address>) -> (routes: Vec<Route>)
        ensures
            route_views(routes@) == self.entries(addresses(envelope@)),
    {
        let mut routes: Vec<Route> = Vec::new();
        let ghost to = addresses(envelope@);
        let n: usize = self.targets.len();
        if n > 0 {
            let mut i: usize = 0;
            assert(self.targets@.take(0) == Seq::<RouteTarget>::empty());
            assert(route_views(routes@) == Seq::<RouteView>::empty());
            while i < n
                invariant
                    i <= n == self.targets@.len(),
                    to == addresses(envelope@),
                    route_views(routes@) == fan_out(self.targets@.take(i as int), to),
                decreases n - i,
            {
                let target = &self.targets[i];
                let ghost before = route_views(routes@);
                assert(self.targets@.take(i + 1).drop_last() == self.targets@.take(i as int));
                if !same_text(target.transport.as_str(), "reject") {
                    let route = Route {
                        transport: Some(target.transport.clone()),
                        recipients: replacement(&target.recipients, envelope),
                    };
                    let ghost entry = route@;
                    routes.push(route);
                    assert(route_views(routes@) == before.push(entry));
                }
                i += 1;
            }
            assert(self.targets@.take(n as int) == self.targets@);
            return routes;
        }
        if let Some(transport) = &self.transport {
            if same_text(transport.as_str(), "reject") {
                assert(route_views(routes@) == self.entries(to));
                return routes;
            }
        }
        let route = Route {
            transport: copy_opt(&self.transport),
            recipients: replacement(&self.recipients, envelope),
        };
        let ghost entry = route@;
        routes.push(route);
        assert(route_views(routes@) == seq![entry]);
        routes
    }
}

/// The recipients of a channel.
fn replacement(own: &Vec<String>, envelope: &Vec<Address>) -> (list: Vec<Address>)
    ensures
        addresses(list@) == receivers(strings(own@), addresses(envelope@)),
{
    if own.is_empty() {
        return copy_addresses(envelope);
    }
    let mut list: Vec<Address> = Vec::new();
    let mut i: usize = 0;
    while i < own.len()
        invariant
            i <= own@.len(),
            addresses(list@) == plain_addresses(strings(own@).take(i as int)),
        decreases own@.len() - i,
    {
        let ghost before = addresses(list@);
        let address = Address::new(own[i].clone());
        let ghost view = address@;
        list.push(address);
        assert(addresses(list@) == before.push(view));
        assert(strings(own@).take(i + 1) == strings(own@).take(i as int).push(own@[i as int]@));
        assert(addresses(list@) == plain_addresses(strings(own@).take(i + 1)));
        i += 1;
    }
    assert(strings(own@).take(own@.len() as int) == strings(own@));
    list
}

impl RoutingConfig {
    /// The rule that holds for `sender`: its own, or else the default.
    pub open spec fn rule_for(self, sender: Seq<char>) -> Option<RouteRule> {
        match lookup(self.senders@, sender) {
            Some(rule) => Some(rule),
            None => self.default,
        }
    }

    /// The entries that a mail of `sender` to the recipients `envelope` becomes; none where it
    /// is rejected. Where routing does not decide, a mail becomes one entry for its recipients.
    pub open spec fn decision(self, sender: Seq<char>, envelope: Seq<AddressView>) -> Seq<
        RouteView,
    > {
        if !self.active() {
            seq![RouteView { transport: None, recipients: envelope }]
        } else {
            match self.rule_for(sender) {
                Some(rule) => rule.entries(envelope),
                None => Seq::empty(),
            }
        }
    }

    /// The entries that a mail of `sender` becomes in the queue; none where it is rejected.
    pub fn route(&self, sender: &str, envelope: &Vec<Address>) -> (routes: Vec<Route>)
        ensures
            route_views(routes@) == self.decision(sender@, addresses(envelope@)),
    {
        if self.default.is_none() && self.senders.len() == 0 {
            let route = Route { transport: None, recipients: copy_addresses(envelope) };
            let ghost entry = route@;
            let mut routes: Vec<Route> = Vec::new();
            routes.push(route);
            assert(route_views(routes@) == seq![entry]);
            return routes;
        }
        match self.senders.get(sender) {
            Some(rule) => rule.routes(envelope),
            None => match &self.default {
                Some(rule) => rule.routes(envelope),
                None => {
                    let routes: Vec<Route> = Vec::new();
                    assert(route_views(routes@) == Seq::<RouteView>::empty());
                    routes
                },
            },
        }
    }
}

/// A sender's own rule wins over the default: the default makes no difference to its mail.
pub proof fn law_own_rule_wins(
    routing: RoutingConfig,
    other: Option<RouteRule>,
    sender: Seq<char>,
    envelope: Seq<AddressView>,
)
    requires
        lookup(routing.senders@, sender) is Some,
    ensures
        routing.decision(sender, envelope) == (RoutingConfig { default: other, ..routing }).decision(
            sender,
            envelope,
        ),
        routing.decision(sender, envelope) == lookup(routing.senders@, sender)->0.entries(envelope),
{
    lemma_position_of(routing.senders@, sender, 0);
}

/// Where there are rules but no default, a sender without a rule is rejected.
pub proof fn law_unknown_sender_rejected(
    routing: RoutingConfig,
    sender: Seq<char>,
    envelope: Seq<AddressView>,
)
    requires
        routing.active(),
        routing.default is None,
        lookup(routing.senders@, sender) is None,
    ensures
        routing.decision(sender, envelope).len() == 0,
{
}

/// No entry goes to the transport `reject`, and a mail to somebody becomes entries to somebody.
pub proof fn law_entries_are_deliverable(
    routing: RoutingConfig,
    sender: Seq<char>,
    envelope: Seq<AddressView>,
    i: int,
)
    requires
        envelope.len() > 0,
        0 <= i < routing.decision(sender, envelope).len(),
    ensures
        routing.decision(sender, envelope)[i].transport != Some("reject"@),
        routing.decision(sender, envelope)[i].recipients.len() > 0,
{
    if routing.active() {
        let rule = routing.rule_for(sender)->0;
        if rule.targets@.len() > 0 {
            lemma_fan_out_deliverable(rule.targets@, envelope, i);
        }
    }
}

proof fn lemma_fan_out_deliverable(
    targets: Seq<RouteTarget>,
    envelope: Seq<AddressView>,
    i: int,
)
    requires
        envelope.len() > 0,
        0 <= i < fan_out(targets, envelope).len(),
    ensures
        fan_out(targets, envelope)[i].transport != Some("reject"@),
        fan_out(targets, envelope)[i].recipients.len() > 0,
    decreases targets.len(),
{
    if targets.len() > 0 && i < fan_out(targets.drop_last(), envelope).len() {
        lemma_fan_out_deliverable(targets.drop_last(), envelope, i);
    }
}

/// The number of channels that do not reject.
pub open spec fn open_channels(targets: Seq<RouteTarget>) -> nat
    decreases targets.len(),
{
    if targets.len() == 0 {
        0
    } else {
        open_channels(targets.drop_last()) + (if targets.last().transport@ == "reject"@ {
            0nat
        } else {
            1nat
        })
    }
}

/// A rule with several channels makes one entry of each that does not reject.
pub proof fn law_one_entry_per_channel(targets: Seq<RouteTarget>, envelope: Seq<AddressView>)
    ensures
        fan_out(targets, envelope).len() == open_channels(targets),
    decreases targets.len(),
{
    if targets.len() > 0 {
        law_one_entry_per_channel(targets.drop_last(), envelope);
    }
}

/// A rule with a transport makes one entry for it. The recipients that the rule lists are those
/// of the entry, whatever the envelope holds; where it lists none they are those of the
/// envelope.
pub proof fn law_rule_decides_transport_and_recipients(
    routing: RoutingConfig,
    rule: RouteRule,
    sender: Seq<char>,
    envelope: Seq<AddressView>,
)
    requires
        lookup(routing.senders@, sender) == Some(rule) || (lookup(routing.senders@, sender) is None
            && routing.default == Some(rule)),
        rule.targets@.len() == 0,
        rule.transport matches Some(transport) ==> transport@ != "reject"@,
    ensures
        routing.decision(sender, envelope).len() == 1,
        ({
            let entry = routing.decision(sender, envelope)[0];
            &&& rule.transport is None <==> entry.transport is None
            &&& rule.transport matches Some(transport) ==> entry.transport == Some(transport@)
            &&& rule.recipients@.len() == 0 ==> entry.recipients == envelope
            &&& rule.recipients@.len() > 0 ==> {
                &&& entry.recipients.len() == rule.recipients@.len()
                &&& forall|i: int|
                    0 <= i < rule.recipients@.len() ==> (#[trigger] entry.recipients[i]).email
                        == rule.recipients@[i]@ && entry.recipients[i].name is None
            }
        }),
{
    lemma_position_of(routing.senders@, sender, 0);
}

/// A rule that rejects makes no entry of the sender's mail.
pub proof fn law_rejecting_rule_makes_no_entry(
    routing: RoutingConfig,
    rule: RouteRule,
    sender: Seq<char>,
    envelope: Seq<AddressView>,
)
    requires
        lookup(routing.senders@, sender) == Some(rule) || (lookup(routing.senders@, sender) is None
            && routing.default == Some(rule)),
        rule.targets@.len() == 0,
        rule.transport matches Some(transport) && transport@ == "reject"@,
    ensures
        routing.decision(sender, envelope).len() == 0,
{
    lemma_position_of(routing.senders@, sender, 0);
}

/// Every channel of a rule that does not reject makes its entry, in the order of the channels:
/// for its transport, and to the recipients that it lists, or else to those of the envelope.
pub proof fn law_channel_decides_transport_and_recipients(
    routing: RoutingConfig,
    rule: RouteRule,
    sender: Seq<char>,
    envelope: Seq<AddressView>,
    j: int,
)
    requires
        lookup(routing.senders@, sender) == Some(rule) || (lookup(routing.senders@, sender) is None
            && routing.default == Some(rule)),
        0 <= j < rule.targets@.len(),
        rule.targets@[j].transport@ != "reject"@,
    ensures
        open_channels(rule.targets@.take(j)) < routing.decision(sender, envelope).len(),
        ({
            let target = rule.targets@[j];
            let entry = routing.decision(sender, envelope)[open_channels(
                rule.targets@.take(j),
            ) as int];
            &&& entry.transport == Some(target.transport@)
            &&& target.recipients@.len() == 0 ==> entry.recipients == envelope
            &&& target.recipients@.len() > 0 ==> {
                &&& entry.recipients.len() == target.recipients@.len()
                &&& forall|i: int|
                    0 <= i < target.recipients@.len() ==> (#[trigger] entry.recipients[i]).email
                        == target.recipients@[i]@ && entry.recipients[i].name is None
            }
        }),
{
    lemma_position_of(routing.senders@, sender, 0);
    lemma_channel_entry(rule.targets@, envelope, j);
}

/// Where the entry of a channel stands, and what it is.
proof fn lemma_channel_entry(targets: Seq<RouteTarget>, envelope: Seq<AddressView>, j: int)
    requires
        0 <= j < targets.len(),
        targets[j].transport@ != "reject"@,
    ensures
        open_channels(targets.take(j)) < fan_out(targets, envelope).len(),
        fan_out(targets, envelope)[open_channels(targets.take(j)) as int] == (RouteView {
            transport: Some(targets[j].transport@),
            recipients: receivers(strings(targets[j].recipients@), envelope),
        }),
    decreases targets.len(),
{
    let before = targets.drop_last();
    law_one_entry_per_channel(before, envelope);
    if j < before.len() {
        lemma_channel_entry(before, envelope, j);
        assert(before.take(j) == targets.take(j));
        assert(before[j] == targets[j]);
    } else {
        assert(targets.take(j) == before);
    }
}

/// Without routing rules a mail becomes one entry, for its own recipients and no transport in
/// particular.
pub proof fn law_without_rules_mail_stays_as_it_is(
    routing: RoutingConfig,
    sender: Seq<char>,
    envelope: Seq<AddressView>,
)
    requires
        routing.default is None,
        routing.senders@.len() == 0,
    ensures
        routing.decision(sender, envelope).len() == 1,
        routing.decision(sender, envelope)[0].transport is None,
        routing.decision(sender, envelope)[0].recipients == envelope,
{
}

/// A mail that is routed by a rule with a transport becomes one entry for it, to the recipients
/// that the rule lists, or else to those of the envelope.
pub proof fn law_mail_is_routed_by_its_rule(
    routing: &RoutingConfig,
    sender: &str,
    envelope: &Vec<Address>,
    routes: Vec<Route>,
    rule: RouteRule,
)
    requires
        call_ensures(RoutingConfig::route, (routing, sender, envelope), routes),
        lookup(routing.senders@, sender@) == Some(rule) || (lookup(routing.senders@, sender@)
            is None && routing.default == Some(rule)),
        rule.targets@.len() == 0,
        rule.transport matches Some(transport) ==> transport@ != "reject"@,
    ensures
        routes@.len() == 1,
        opt_text(routes@[0].transport) == opt_text(rule.transport),
        rule.recipients@.len() == 0 ==> addresses(routes@[0].recipients@) == addresses(envelope@),
        rule.recipients@.len() > 0 ==> {
            &&& routes@[0].recipients@.len() == rule.recipients@.len()
            &&& forall|i: int|
                0 <= i < rule.recipients@.len() ==> (#[trigger] routes@[0].recipients@[i]).email@
                    == rule.recipients@[i]@ && routes@[0].recipients@[i].name is None
        },
{
    let to = addresses(envelope@);
    law_rule_decides_transport_and_recipients(*routing, rule, sender@, to);
    let views = route_views(routes@);
    assert(views.len() == routes@.len());
    assert(views[0] == routes@[0]@);
    let list = addresses(routes@[0].recipients@);
    assert(views[0].recipients == list);
    if rule.recipients@.len() > 0 {
        assert forall|i: int| 0 <= i < rule.recipients@.len() implies (
        #[trigger] routes@[0].recipients@[i]).email@ == rule.recipients@[i]@
            && routes@[0].recipients@[i].name is None by {
            assert(list[i] == routes@[0].recipients@[i]@);
            assert(views[0].recipients[i].email == rule.recipients@[i]@);
        }
    }
}

/// The view of a route holds its transport and its recipients, and that of a list every route.
pub proof fn law_view_of_routes(route: Route, list: Seq<Route>)
    ensures
        route.transport is None <==> route@.transport is None,
        route.transport matches Some(name) ==> route@.transport == Some(name@),
        route@.recipients.len() == route.recipients@.len(),
        forall|i: int|
            0 <= i < route.recipients@.len() ==> #[trigger] route@.recipients[i]
                == route.recipients@[i]@,
        route_views(list).len() == list.len(),
        forall|i: int| 0 <= i < list.len() ==> #[trigger] route_views(list)[i] == list[i]@,
{
}

} // verus!
