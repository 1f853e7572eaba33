//! The dispatcher's decisions: which mails a tick takes up, which transport carries a mail, and
//! what its outcome does to the queue.

use vstd::prelude::*;

use crate::error::CoreError;
use crate::id::MailId;
use crate::message::Mail;
use crate::queue::QueueUpdate;
use crate::retry::RetryPolicy;
use crate::text::{join, lists};
use crate::time::{Duration, Timestamp};

verus! {

use crate::message::{MailStatus, MailView};
use crate::queue::{
    changed, comes_before, distinct_ids, is_due, is_selection, law_every_mail_is_got,
    law_update_changes_one_mail, law_update_keeps_ids, mail_views, mail_with, selects, updated,
    UpdateView,
};
use crate::retry::law_backoff_within_bounds;
use crate::text::{occurs_at, opt_text, strings};
use crate::time::{law_later_by_the_span, law_later_grows, max_span, MAX_SECS, MIN_SECS};

/// Settings of the dispatcher.
#[derive(Debug, Clone, Copy)]
pub struct DispatcherConfig {
    /// Mails fetched per tick at most.
    pub batch_size: u32,
    /// Mails in delivery at the same time at most.
    pub concurrency: usize,
    /// Delay between ticks.
    pub poll_interval: Duration,
    /// How long a mail may be in delivery before it is taken up again.
    pub sending_lease: Duration,
    /// How failed deliveries are retried.
    pub retry: RetryPolicy,
}

impl Default for DispatcherConfig {
    fn default() -> (c: Self)
        ensures
            c.batch_size == 64,
            c.concurrency == 8,
            c.poll_interval.length() == 5_000_000_000,
            c.sending_lease.length() == 120_000_000_000,
            c.retry.max_attempts == 5,
            c.retry.base_delay.length() == 30_000_000_000,
            c.retry.max_delay.length() == 3600_000_000_000,
    {
        DispatcherConfig {
            batch_size: 64,
            concurrency: 8,
            poll_interval: Duration::from_secs(5),
            sending_lease: Duration::from_secs(120),
            retry: RetryPolicy::default(),
        }
    }
}

/// What a tick asks for next.
#[derive(Debug)]
pub enum TickAction {
    /// Take this mail up, so that no later tick hands it out again.
    Claim(MailId),
    /// Start the delivery of this mail.
    Deliver(Mail),
    /// Wait until a delivery has ended.
    Wait,
    /// The tick is over; so many mails were delivered or could not be.
    Finish(usize),
}

/// What a [`TickAction`] stands for.
pub enum ActionView {
    Claim(u128),
    Deliver(MailView),
    Wait,
    Finish(nat),
}

impl View for TickAction {
    type V = ActionView;

    open spec fn view(&self) -> ActionView {
        match *self {
            TickAction::Claim(id) => ActionView::Claim(id),
            TickAction::Deliver(mail) => ActionView::Deliver(mail@),
            TickAction::Wait => ActionView::Wait,
            TickAction::Finish(n) => ActionView::Finish(n as nat),
        }
    }
}

/// One polling tick: it goes through the mails that were fetched, takes each up and has it
/// delivered, with no more deliveries at a time than its limit.
#[derive(Debug)]
pub struct Tick {
    due: Vec<Mail>,
    next: usize,
    held: Option<Mail>,
    in_flight: usize,
    limit: usize,
    processed: usize,
}

/// What a [`Tick`] stands for: the mails that were fetched, how many of them it has gone
/// through, the one that was taken up and waits to be delivered, the deliveries that run, their
/// limit, and how many were started.
pub struct TickView {
    pub due: Seq<MailView>,
    pub next: nat,
    pub held: Option<MailView>,
    pub in_flight: nat,
    pub limit: nat,
    pub processed: nat,
}

impl View for Tick {
    type V = TickView;

    closed spec fn view(&self) -> TickView {
        TickView {
            due: mail_views(self.due@),
            next: self.next as nat,
            held: match self.held {
                Some(mail) => Some(mail@),
                None => None,
            },
            in_flight: self.in_flight as nat,
            limit: self.limit as nat,
            processed: self.processed as nat,
        }
    }
}

impl TickView {
    /// A tick over the mails that were fetched.
    pub open spec fn begun(due: Seq<MailView>, limit: nat) -> TickView {
        TickView { due, next: 0, held: None, in_flight: 0, limit, processed: 0 }
    }

    /// The counts agree: no more deliveries run than were started and than the limit allows, and
    /// only mails that were gone through were taken up.
    pub open spec fn consistent(self) -> bool {
        &&& self.next <= self.due.len()
        &&& self.in_flight <= self.limit
        &&& self.in_flight <= self.processed
        &&& self.taken() <= self.next
    }

    /// How many mails were taken up.
    pub open spec fn taken(self) -> nat {
        self.processed + (if self.held is Some {
            1nat
        } else {
            0nat
        })
    }

    /// What the tick asks for, and the tick once it has asked.
    pub open spec fn asked(self) -> (TickView, ActionView) {
        if let Some(mail) = self.held {
            if self.in_flight < self.limit {
                (
                    TickView {
                        held: None,
                        in_flight: self.in_flight + 1,
                        processed: self.processed + 1,
                        ..self
                    },
                    ActionView::Deliver(mail),
                )
            } else {
                (self, ActionView::Wait)
            }
        } else if self.next < self.due.len() {
            (self, ActionView::Claim(self.due[self.next as int].id))
        } else if self.in_flight > 0 {
            (self, ActionView::Wait)
        } else {
            (self, ActionView::Finish(self.processed))
        }
    }

    /// The tick after the mail in turn was taken up, or could not be and is skipped.
    pub open spec fn answered(self, taken: bool) -> TickView {
        if self.held is Some || self.next >= self.due.len() {
            self
        } else {
            TickView {
                next: self.next + 1,
                held: if taken {
                    Some(self.due[self.next as int])
                } else {
                    None
                },
                ..self
            }
        }
    }

    /// The tick after a delivery has ended.
    pub open spec fn relieved(self) -> TickView {
        if self.in_flight == 0 {
            self
        } else {
            TickView { in_flight: (self.in_flight - 1) as nat, ..self }
        }
    }
}

impl Tick {
    #[verifier::type_invariant]
    spec fn sound(&self) -> bool {
        self@.consistent()
    }

    /// The tick over the mails that the queue handed out, with at most `limit` deliveries at a
    /// time. Where they could not be fetched there is nothing to do.
    pub fn start(fetched: Result<Vec<Mail>, CoreError>, limit: usize) -> (tick: Self)
        ensures
            tick@ == TickView::begun(
                match fetched {
                    Ok(due) => mail_views(due@),
                    Err(_) => Seq::empty(),
                },
                limit as nat,
            ),
    {
        let due: Vec<Mail> = match fetched {
            Ok(due) => due,
            Err(_) => Vec::new(),
        };
        let tick = Tick { due, next: 0, held: None, in_flight: 0, limit, processed: 0 };
        assert(fetched is Err ==> tick@.due == Seq::<MailView>::empty());
        tick
    }

    /// What is to be done next.
    pub fn ask(&mut self) -> (action: TickAction)
        ensures
            (final(self)@, action@) == old(self)@.asked(),
            final(self)@.consistent(),
    {
        proof {
            use_type_invariant(&*self);
        }
        let ghost before = self@;
        if self.held.is_some() {
            if self.in_flight >= self.limit {
                return TickAction::Wait;
            }
            let mut held: Option<Mail> = None;
            core::mem::swap(&mut held, &mut self.held);
            self.processed = self.processed + 1;
            self.in_flight = self.in_flight + 1;
            match held {
                Some(mail) => TickAction::Deliver(mail),
                None => TickAction::Wait,
            }
        } else if self.next < self.due.len() {
            TickAction::Claim(self.due[self.next].id)
        } else if self.in_flight > 0 {
            TickAction::Wait
        } else {
            TickAction::Finish(self.processed)
        }
    }

    /// Takes in whether the mail in turn could be taken up. One that could not is skipped.
    pub fn claimed(&mut self, claim: Result<(), CoreError>)
        ensures
            final(self)@ == old(self)@.answered(claim is Ok),
            final(self)@.consistent(),
    {
        proof {
            use_type_invariant(&*self);
        }
        if self.held.is_some() || self.next >= self.due.len() {
            return;
        }
        let at: usize = self.next;
        self.next = at + 1;
        if claim.is_ok() {
            self.held = Some(self.due[at].clone());
        }
    }

    /// Takes in that a delivery has ended.
    pub fn finished(&mut self)
        ensures
            final(self)@ == old(self)@.relieved(),
            final(self)@.consistent(),
    {
        proof {
            use_type_invariant(&*self);
        }
        if self.in_flight > 0 {
            self.in_flight = self.in_flight - 1;
        }
    }
}

/// What has happened to a tick.
pub enum TickEvent {
    /// It was asked what to do.
    Asked,
    /// The mail in turn was taken up, or could not be.
    Answered(bool),
    /// A delivery has ended.
    Relieved,
}

/// The tick after an event.
pub open spec fn tick_after(tick: TickView, event: TickEvent) -> TickView {
    match event {
        TickEvent::Asked => tick.asked().0,
        TickEvent::Answered(taken) => tick.answered(taken),
        TickEvent::Relieved => tick.relieved(),
    }
}

/// The tick after events, one after the other.
pub open spec fn tick_run(tick: TickView, events: Seq<TickEvent>) -> TickView
    decreases events.len(),
{
    if events.len() == 0 {
        tick
    } else {
        tick_after(tick_run(tick, events.drop_last()), events.last())
    }
}

/// Whatever happens, no more deliveries run at a time than the limit allows, and no more mails
/// are taken up than were gone through.
pub proof fn law_tick_keeps_limit(due: Seq<MailView>, limit: nat, events: Seq<TickEvent>)
    ensures
        ({
            let tick = tick_run(TickView::begun(due, limit), events);
            &&& tick.consistent()
            &&& tick.due == due
            &&& tick.limit == limit
            &&& tick.in_flight <= limit
            &&& tick.taken() <= tick.next <= due.len()
        }),
    decreases events.len(),
{
    if events.len() > 0 {
        law_tick_keeps_limit(due, limit, events.drop_last());
    }
}

/// A tick is over only when it has gone through every mail that was fetched, every mail that was
/// taken up has been delivered or has failed, and no delivery runs; it then reports how many
/// mails were taken up.
pub proof fn law_tick_ends_when_all_is_done(tick: TickView)
    requires
        tick.consistent(),
        tick.asked().1 is Finish,
    ensures
        tick.next == tick.due.len(),
        tick.held is None,
        tick.in_flight == 0,
        tick.asked().1 == ActionView::Finish(tick.taken()),
{
}

/// Every answer to a claim moves the tick on by one mail, and a mail that was taken up counts
/// once.
pub proof fn law_claim_counts_once(tick: TickView, taken: bool)
    requires
        tick.asked().1 is Claim,
    ensures
        tick.answered(taken).next == tick.next + 1,
        tick.answered(taken).taken() == tick.taken() + (if taken {
            1nat
        } else {
            0nat
        }),
        taken && tick.limit > tick.in_flight ==> tick.answered(taken).asked().1
            == ActionView::Deliver(tick.due[tick.next as int]),
{
}

/// Whether each mail that the tick has gone through could be taken up, in their order.
pub open spec fn claims_answered(tick: TickView, events: Seq<TickEvent>) -> Seq<bool>
    decreases events.len(),
{
    if events.len() == 0 {
        Seq::empty()
    } else {
        let earlier = claims_answered(tick, events.drop_last());
        match events.last() {
            TickEvent::Answered(taken) => if tick_run(tick, events.drop_last()).asked().1 is Claim {
                earlier.push(taken)
            } else {
                earlier
            },
            _ => earlier,
        }
    }
}

/// The mails whose delivery the tick has started, in their order.
pub open spec fn deliveries_started(tick: TickView, events: Seq<TickEvent>) -> Seq<MailView>
    decreases events.len(),
{
    if events.len() == 0 {
        Seq::empty()
    } else {
        let earlier = deliveries_started(tick, events.drop_last());
        match events.last() {
            TickEvent::Asked => match tick_run(tick, events.drop_last()).asked().1 {
                ActionView::Deliver(mail) => earlier.push(mail),
                _ => earlier,
            },
            _ => earlier,
        }
    }
}

/// The mails of `due` that were taken up, in their order.
pub open spec fn granted(due: Seq<MailView>, claims: Seq<bool>) -> Seq<MailView>
    decreases claims.len(),
{
    if claims.len() == 0 {
        Seq::empty()
    } else if claims.last() {
        granted(due, claims.drop_last()).push(due[claims.len() - 1])
    } else {
        granted(due, claims.drop_last())
    }
}

/// A list of one mail or none.
pub open spec fn listed(mail: Option<MailView>) -> Seq<MailView> {
    match mail {
        Some(mail) => seq![mail],
        None => Seq::empty(),
    }
}

/// Whatever happens, the deliveries are those of the mails that were taken up, in their order
/// and each once, but for one mail at most that was taken up and waits. Once the tick is over
/// every mail that was fetched has been gone through and none waits.
pub proof fn law_tick_delivers_what_was_taken_up(
    due: Seq<MailView>,
    limit: nat,
    events: Seq<TickEvent>,
)
    ensures
        ({
            let begun = TickView::begun(due, limit);
            let tick = tick_run(begun, events);
            let claims = claims_answered(begun, events);
            let started = deliveries_started(begun, events);
            &&& claims.len() == tick.next
            &&& started.len() == tick.processed
            &&& started + listed(tick.held) == granted(due, claims)
            &&& distinct_ids(due) ==> distinct_ids(started)
            &&& tick.asked().1 matches ActionView::Finish(n) ==> claims.len() == due.len()
                && started == granted(due, claims) && n == started.len()
        }),
{
    let begun = TickView::begun(due, limit);
    let tick = tick_run(begun, events);
    let claims = claims_answered(begun, events);
    let started = deliveries_started(begun, events);
    lemma_tick_delivers(due, limit, events);
    if distinct_ids(due) {
        lemma_granted(due, claims);
        assert forall|i: int, j: int| 0 <= i < j < started.len() implies #[trigger] started[i].id
            != #[trigger] started[j].id by {
            assert(started[i] == granted(due, claims)[i]);
            assert(started[j] == granted(due, claims)[j]);
        }
    }
    if tick.asked().1 is Finish {
        assert(started + listed(tick.held) == started);
    }
}

proof fn lemma_tick_delivers(due: Seq<MailView>, limit: nat, events: Seq<TickEvent>)
    ensures
        ({
            let begun = TickView::begun(due, limit);
            let tick = tick_run(begun, events);
            let claims = claims_answered(begun, events);
            let started = deliveries_started(begun, events);
            &&& tick.due == due
            &&& claims.len() == tick.next <= due.len()
            &&& started.len() == tick.processed
            &&& started + listed(tick.held) == granted(due, claims)
        }),
    decreases events.len(),
{
    let begun = TickView::begun(due, limit);
    if events.len() > 0 {
        let earlier = events.drop_last();
        lemma_tick_delivers(due, limit, earlier);
        let tick = tick_run(begun, earlier);
        let claims = claims_answered(begun, earlier);
        let started = deliveries_started(begun, earlier);
        match events.last() {
            TickEvent::Asked => {
                if let ActionView::Deliver(mail) = tick.asked().1 {
                    assert(started + seq![mail] == started.push(mail));
                    assert(started.push(mail) + listed(None) == started.push(mail));
                }
            },
            TickEvent::Answered(taken) => {
                if tick.asked().1 is Claim {
                    let mail = due[tick.next as int];
                    assert(claims.push(taken).drop_last() == claims);
                    assert(started + listed(None) == started);
                    assert(started + seq![mail] == started.push(mail));
                }
            },
            TickEvent::Relieved => {},
        }
    } else {
        assert(Seq::<MailView>::empty() + listed(None) == Seq::<MailView>::empty());
    }
}

/// The mails that were taken up are mails that were gone through, none of them twice.
proof fn lemma_granted(due: Seq<MailView>, claims: Seq<bool>)
    requires
        distinct_ids(due),
        claims.len() <= due.len(),
    ensures
        distinct_ids(granted(due, claims)),
        forall|k: int|
            0 <= k < granted(due, claims).len() ==> exists|i: int|
                0 <= i < claims.len() && #[trigger] granted(due, claims)[k] == #[trigger] due[i],
    decreases claims.len(),
{
    if claims.len() > 0 {
        lemma_granted(due, claims.drop_last());
        let earlier = granted(due, claims.drop_last());
        let all = granted(due, claims);
        let last = claims.len() - 1;
        assert forall|k: int| 0 <= k < all.len() implies exists|i: int|
            0 <= i < claims.len() && #[trigger] all[k] == #[trigger] due[i] by {
            if k < earlier.len() {
                assert(all[k] == earlier[k]);
            } else {
                assert(all[k] == due[last]);
            }
        }
        assert forall|i: int, j: int| 0 <= i < j < all.len() implies #[trigger] all[i].id
            != #[trigger] all[j].id by {
            assert(all[i] == earlier[i]);
            if j < earlier.len() {
                assert(all[j] == earlier[j]);
            } else {
                let p = choose|p: int| 0 <= p < last && earlier[i] == due[p];
                assert(due[p].id != due[last].id);
            }
        }
    }
}

/// What is to be done with a mail that was taken up.
#[derive(Debug)]
pub enum Delivery {
    /// Hand it to the transport of this name.
    Send {
        /// The transport.
        transport: String,
    },
    /// There is no such transport: record this.
    Bury {
        /// What goes into the queue.
        update: QueueUpdate,
    },
}

/// The text of an optional string in the form that `{:?}` writes.
pub uninterp spec fn debug_text(o: Option<Seq<char>>) -> Seq<char>;

/// Trusted: `std::format` with `{:?}` writes an optional string in its debugging form.
#[verifier::external_body]
fn debug_of(o: &Option<String>) -> (s: String)
    ensures
        s@ == debug_text(opt_text(*o)),
{
    format!("{:?}", o)
}

/// What is recorded of a mail that no transport can carry.
pub open spec fn unroutable(requested: Option<Seq<char>>, default: Option<Seq<char>>) -> Seq<char> {
    "no transport available (requested "@ + debug_text(requested) + ", default "@ + debug_text(
        default,
    ) + ")"@
}

/// The time in nanoseconds to wait before the attempt that follows `attempts` attempts: the
/// delay of the policy, or a minute where it is too long to be added to a point in time.
pub open spec fn wait(policy: RetryPolicy, attempts: u32) -> int {
    if policy.delay(attempts) <= max_span() {
        policy.delay(attempts)
    } else {
        60_000_000_000
    }
}

/// What a delivery of a mail with `attempts` earlier attempts does to the queue. A failed mail
/// is buried once the policy allows no further attempt, and is else attempted again later.
pub open spec fn settled(
    policy: RetryPolicy,
    attempts: u32,
    failure: Option<Seq<char>>,
    now: Timestamp,
) -> UpdateView {
    match failure {
        None => UpdateView::Sent,
        Some(error) => if policy.exhausted((attempts + 1) as u32) {
            UpdateView::Dead { error }
        } else {
            UpdateView::Failed { error, retry_at: now.later(wait(policy, (attempts + 1) as u32)) }
        },
    }
}

/// Decides how mails are delivered.
#[derive(Debug)]
pub struct Dispatcher {
    /// The names of the transports.
    pub transports: Vec<String>,
    /// The transport of mails that name none.
    pub default_transport: Option<String>,
    /// Settings.
    pub config: DispatcherConfig,
}

impl Dispatcher {
    /// A dispatcher over the named transports.
    pub fn new(
        transports: Vec<String>,
        default_transport: Option<String>,
        config: DispatcherConfig,
    ) -> (d: Self)
        ensures
            d == (Dispatcher { transports, default_transport, config }),
    {
        Dispatcher { transports, default_transport, config }
    }

    /// The tick over the mails that the queue handed out, with as many deliveries at a time as
    /// the settings allow. Where they could not be fetched there is nothing to do.
    pub fn tick(&self, fetched: Result<Vec<Mail>, CoreError>) -> (tick: Tick)
        ensures
            tick@ == TickView::begun(
                match fetched {
                    Ok(due) => mail_views(due@),
                    Err(_) => Seq::empty(),
                },
                self.config.concurrency as nat,
            ),
    {
        Tick::start(fetched, self.config.concurrency)
    }

    /// The transport of a mail: the one that it names, or else the default one; `None` where
    /// that is not one of the transports.
    pub open spec fn carrier(self, requested: Option<Seq<char>>) -> Option<Seq<char>> {
        let wished = if requested is Some {
            requested
        } else {
            opt_text(self.default_transport)
        };
        match wished {
            Some(name) => if strings(self.transports@).contains(name) {
                Some(name)
            } else {
                None
            },
            None => None,
        }
    }

    /// The transport of a mail, where it has one.
    pub fn transport_for(&self, mail: &Mail) -> (name: Option<String>)
        ensures
            opt_text(name) == self.carrier(mail@.transport),
    {
        let wished = match &mail.transport {
            Some(name) => Some(name),
            None => match &self.default_transport {
                Some(name) => Some(name),
                None => None,
            },
        };
        match wished {
            Some(name) => if lists(&self.transports, name.as_str()) {
                Some(name.clone())
            } else {
                None
            },
            None => None,
        }
    }

    /// What is to be done with a mail that was taken up. One that no transport can carry is
    /// buried.
    pub fn deliver(&self, mail: &Mail) -> (delivery: Delivery)
        ensures
            match delivery {
                Delivery::Send { transport } => self.carrier(mail@.transport) == Some(transport@),
                Delivery::Bury { update } => self.carrier(mail@.transport) is None && update@
                    == (UpdateView::Dead {
                    error: unroutable(mail@.transport, opt_text(self.default_transport)),
                }),
            },
    {
        match self.transport_for(mail) {
            Some(transport) => Delivery::Send { transport },
            None => {
                let requested = debug_of(&mail.transport);
                let default = debug_of(&self.default_transport);
                let mut error = join("no transport available (requested ", requested.as_str());
                error.append(", default ");
                error.append(default.as_str());
                error.append(")");
                Delivery::Bury { update: QueueUpdate::Dead { error } }
            },
        }
    }

    /// A failed delivery of `mail` that ends at `now` can be recorded: the attempt can be
    /// counted, and the next attempt, if there is one, lies at a point in time.
    pub open spec fn can_record(self, mail: MailView, now: Timestamp) -> bool {
        &&& mail.attempts < u32::MAX
        &&& self.config.retry.exhausted((mail.attempts + 1) as u32) || now.can_add(
            wait(self.config.retry, (mail.attempts + 1) as u32),
        )
    }

    /// The time to wait before the attempt that follows `attempts` attempts.
    fn wait_after(&self, attempts: u32) -> (span: Duration)
        ensures
            span.length() == wait(self.config.retry, attempts),
    {
        match self.config.retry.backoff(attempts).as_time_delta() {
            Some(span) => span,
            None => Duration::from_secs(60),
        }
    }

    /// Whether a failed delivery of `mail` that ends at `now` can be recorded.
    pub fn records(&self, mail: &Mail, now: Timestamp) -> (yes: bool)
        ensures
            yes == self.can_record(mail@, now),
    {
        if mail.attempts == u32::MAX {
            return false;
        }
        let attempts: u32 = mail.attempts + 1;
        self.config.retry.is_exhausted(attempts) || now.accepts(self.wait_after(attempts))
    }

    /// What a delivery does to the queue, given what the transport answered at the time `now`.
    pub fn settle(&self, mail: &Mail, outcome: Result<(), CoreError>, now: Timestamp) -> (update:
        QueueUpdate)
        requires
            outcome is Err ==> self.can_record(mail@, now),
        ensures
            update@ == settled(
                self.config.retry,
                mail.attempts,
                match outcome {
                    Ok(()) => None,
                    Err(e) => Some(e.text()),
                },
                now,
            ),
    {
        match outcome {
            Ok(()) => QueueUpdate::Sent,
            Err(e) => {
                let attempts: u32 = mail.attempts + 1;
                let error = e.message();
                if self.config.retry.is_exhausted(attempts) {
                    QueueUpdate::Dead { error }
                } else {
                    let retry_at = now.after(self.wait_after(attempts));
                    QueueUpdate::Failed { error, retry_at }
                }
            },
        }
    }
}

/// A mail that names a transport is carried by that one or by none; the default is for mails
/// that name none.
pub proof fn law_named_transport_decides(d: Dispatcher, requested: Option<Seq<char>>)
    ensures
        requested matches Some(name) ==> d.carrier(requested) == Some(name) || d.carrier(requested)
            is None,
        requested is None ==> d.carrier(requested) == opt_text(d.default_transport) || d.carrier(
            requested,
        ) is None,
        d.carrier(requested) matches Some(name) ==> strings(d.transports@).contains(name),
{
}

/// The mail after deliveries that failed, each with what went wrong and when.
pub open spec fn after_failures(
    policy: RetryPolicy,
    mail: MailView,
    failures: Seq<(Seq<char>, Timestamp)>,
) -> MailView
    decreases failures.len(),
{
    if failures.len() == 0 {
        mail
    } else {
        let before = after_failures(policy, mail, failures.drop_last());
        let (error, now) = failures.last();
        updated(
            updated(before, UpdateView::Sending, now),
            settled(policy, before.attempts, Some(error), now),
            now,
        )
    }
}

/// A new mail whose deliveries fail is attempted again until the policy allows no further
/// attempt, and is then buried; it is never dropped, and what went wrong last is kept. Until its
/// next attempt it is not due.
pub proof fn law_failing_mail_is_retried_then_buried(
    policy: RetryPolicy,
    mail: MailView,
    failures: Seq<(Seq<char>, Timestamp)>,
    t: Timestamp,
)
    requires
        mail.attempts == 0,
        0 < failures.len() < u32::MAX,
        failures.len() == 1 || failures.len() <= policy.max_attempts,
    ensures
        ({
            let after = after_failures(policy, mail, failures);
            &&& after.attempts == failures.len()
            &&& after.last_error == Some(failures.last().0)
            &&& after.status == (if failures.len() >= policy.max_attempts {
                MailStatus::Dead
            } else {
                MailStatus::Failed
            })
            &&& is_due(after, t) <==> failures.len() < policy.max_attempts && !t.precedes(
                failures.last().1.later(wait(policy, failures.len() as u32)),
            )
        }),
    decreases failures.len(),
{
    if failures.len() > 1 {
        law_failing_mail_is_retried_then_buried(policy, mail, failures.drop_last(), t);
    } else {
        assert(after_failures(policy, mail, failures.drop_last()) == mail);
    }
}

/// After a failure that leaves an attempt, the mail is not due at once where the policy has a
/// delay.
pub proof fn law_retry_waits(policy: RetryPolicy, attempts: u32, now: Timestamp)
    requires
        attempts >= 1,
        policy.base_delay.length() > 0,
        policy.max_delay.length() > 0,
        MIN_SECS <= now.secs() <= MAX_SECS,
        now.nanos() < 1_000_000_000,
        now.can_add(wait(policy, attempts)),
    ensures
        now.precedes(now.later(wait(policy, attempts))),
{
    law_backoff_within_bounds(policy, attempts);
    law_later_grows(now, 0, wait(policy, attempts));
}

/// A delivery of a mail: when it was taken up, what went wrong, and when it ended.
pub struct Attempt {
    pub taken_at: Timestamp,
    pub failure: Option<Seq<char>>,
    pub ended_at: Timestamp,
}

/// The record of a mail after a delivery.
pub open spec fn after_attempt(policy: RetryPolicy, mail: MailView, attempt: Attempt) -> MailView {
    updated(
        updated(mail, UpdateView::Sending, attempt.taken_at),
        settled(policy, mail.attempts, attempt.failure, attempt.ended_at),
        attempt.ended_at,
    )
}

/// The queue after a tick that took up the mails `taken`, each with its delivery.
pub open spec fn after_tick(
    policy: RetryPolicy,
    mails: Seq<MailView>,
    taken: Seq<MailView>,
    attempts: Seq<Attempt>,
) -> Seq<MailView>
    decreases taken.len(),
{
    if taken.len() == 0 {
        mails
    } else {
        let before = after_tick(policy, mails, taken.drop_last(), attempts.drop_last());
        let mail = taken.last();
        let attempt = attempts.last();
        changed(
            changed(before, mail.id, UpdateView::Sending, attempt.taken_at),
            mail.id,
            settled(policy, mail.attempts, attempt.failure, attempt.ended_at),
            attempt.ended_at,
        )
    }
}

/// The attempt of a mail failed and leaves another one.
pub open spec fn is_rescheduled(policy: RetryPolicy, mail: MailView, attempt: Attempt) -> bool {
    attempt.failure is Some && !policy.exhausted((mail.attempts + 1) as u32)
}

/// A tick records the delivery of every mail that it took up, and leaves every other mail as it
/// was.
pub proof fn law_tick_records_every_delivery(
    policy: RetryPolicy,
    mails: Seq<MailView>,
    taken: Seq<MailView>,
    attempts: Seq<Attempt>,
)
    requires
        distinct_ids(mails),
        distinct_ids(taken),
        forall|k: int| 0 <= k < taken.len() ==> mails.contains(#[trigger] taken[k]),
        attempts.len() == taken.len(),
    ensures
        distinct_ids(after_tick(policy, mails, taken, attempts)),
        after_tick(policy, mails, taken, attempts).len() == mails.len(),
        forall|k: int|
            0 <= k < taken.len() ==> mail_with(
                after_tick(policy, mails, taken, attempts),
                (#[trigger] taken[k]).id,
            ) == Some(after_attempt(policy, taken[k], attempts[k])),
        forall|id: MailId|
            (forall|k: int| 0 <= k < taken.len() ==> (#[trigger] taken[k]).id != id)
                ==> #[trigger] mail_with(after_tick(policy, mails, taken, attempts), id)
                == mail_with(mails, id),
    decreases taken.len(),
{
    if taken.len() > 0 {
        let earlier = taken.drop_last();
        let old_attempts = attempts.drop_last();
        let before = after_tick(policy, mails, earlier, old_attempts);
        let after = after_tick(policy, mails, taken, attempts);
        let mail = taken.last();
        let attempt = attempts.last();
        let end = settled(policy, mail.attempts, attempt.failure, attempt.ended_at);
        let begun = changed(before, mail.id, UpdateView::Sending, attempt.taken_at);
        assert forall|k: int| 0 <= k < earlier.len() implies mails.contains(
            #[trigger] earlier[k],
        ) && earlier[k].id != mail.id by {
            assert(earlier[k] == taken[k]);
            assert(taken[k].id != taken[taken.len() - 1].id);
        }
        assert(distinct_ids(earlier)) by {
            assert forall|i: int, j: int| 0 <= i < j < earlier.len() implies #[trigger] earlier[i].id
                != #[trigger] earlier[j].id by {
                assert(taken[i].id != taken[j].id);
            }
        }
        law_tick_records_every_delivery(policy, mails, earlier, old_attempts);
        assert(mails.contains(taken[taken.len() - 1]));
        let place = choose|i: int| 0 <= i < mails.len() && mails[i] == mail;
        law_every_mail_is_got(mails, place, mail.id);
        assert(mail_with(before, mail.id) == Some(mail));
        law_update_keeps_ids(before, mail.id, UpdateView::Sending, attempt.taken_at);
        law_update_changes_one_mail(
            before,
            mail.id,
            UpdateView::Sending,
            attempt.taken_at,
            mail.id,
        );
        law_update_keeps_ids(begun, mail.id, end, attempt.ended_at);
        assert forall|id: MailId| id != mail.id implies #[trigger] mail_with(after, id)
            == mail_with(before, id) by {
            law_update_changes_one_mail(before, mail.id, UpdateView::Sending, attempt.taken_at, id);
            law_update_changes_one_mail(begun, mail.id, end, attempt.ended_at, id);
        }
        law_update_changes_one_mail(begun, mail.id, end, attempt.ended_at, mail.id);
        assert forall|k: int| 0 <= k < taken.len() implies mail_with(
            after,
            (#[trigger] taken[k]).id,
        ) == Some(after_attempt(policy, taken[k], attempts[k])) by {
            if k < earlier.len() {
                assert(earlier[k] == taken[k]);
                assert(old_attempts[k] == attempts[k]);
            }
        }
        assert forall|id: MailId|
            (forall|k: int| 0 <= k < taken.len() ==> (#[trigger] taken[k]).id
                != id) implies #[trigger] mail_with(after, id) == mail_with(mails, id) by {
            assert(taken[taken.len() - 1].id != id);
            assert forall|k: int| 0 <= k < earlier.len() implies (#[trigger] earlier[k]).id
                != id by {
                assert(taken[k].id != id);
            }
        }
    }
}

/// A mail whose attempt in a tick failed and leaves another one is in the queue after the tick
/// as a mail that failed, with one more attempt, what went wrong, and its next attempt later
/// than the end of this one.
pub proof fn law_failure_reschedules(
    policy: RetryPolicy,
    mails: Seq<MailView>,
    taken: Seq<MailView>,
    attempts: Seq<Attempt>,
    k: int,
)
    requires
        distinct_ids(mails),
        distinct_ids(taken),
        forall|i: int| 0 <= i < taken.len() ==> mails.contains(#[trigger] taken[i]),
        attempts.len() == taken.len(),
        0 <= k < taken.len(),
        taken[k].attempts < u32::MAX,
        is_rescheduled(policy, taken[k], attempts[k]),
        policy.base_delay.length() > 0,
        policy.max_delay.length() > 0,
        MIN_SECS <= attempts[k].ended_at.secs() <= MAX_SECS,
        attempts[k].ended_at.nanos() < 1_000_000_000,
        attempts[k].ended_at.can_add(wait(policy, (taken[k].attempts + 1) as u32)),
    ensures
        mail_with(after_tick(policy, mails, taken, attempts), taken[k].id) matches Some(mail) && {
            &&& mail.status == MailStatus::Failed
            &&& mail.attempts == taken[k].attempts + 1
            &&& mail.last_error == attempts[k].failure
            &&& mail.updated_at == attempts[k].ended_at
            &&& attempts[k].ended_at.precedes(mail.next_attempt_at)
        },
{
    law_tick_records_every_delivery(policy, mails, taken, attempts);
    law_retry_waits(policy, (taken[k].attempts + 1) as u32, attempts[k].ended_at);
    assert(mail_with(after_tick(policy, mails, taken, attempts), taken[k].id) == Some(
        after_attempt(policy, taken[k], attempts[k]),
    ));
}

/// After a tick that took up every mail that was due, the next tick finds nothing to do as long
/// as no failed mail has reached its next attempt and no other mail has become due: it ends at
/// once with no mail taken up, and leaves the queue as it is.
pub proof fn law_next_tick_finds_nothing(
    policy: RetryPolicy,
    mails: Seq<MailView>,
    at: Timestamp,
    limit: nat,
    taken: Seq<MailView>,
    attempts: Seq<Attempt>,
    t: Timestamp,
    again: Seq<MailView>,
    concurrency: nat,
)
    requires
        distinct_ids(mails),
        selects(mails, |m: MailView| is_due(m, at), limit, taken),
        forall|i: int|
            0 <= i < mails.len() && is_due(#[trigger] mails[i], at) ==> taken.contains(mails[i]),
        attempts.len() == taken.len(),
        forall|k: int|
            0 <= k < taken.len() && is_rescheduled(policy, #[trigger] taken[k], attempts[k])
                ==> t.precedes(
                attempts[k].ended_at.later(wait(policy, (taken[k].attempts + 1) as u32)),
            ),
        forall|i: int|
            0 <= i < mails.len() && is_due(#[trigger] mails[i], t) ==> is_due(mails[i], at),
        selects(
            after_tick(policy, mails, taken, attempts),
            |m: MailView| is_due(m, t),
            limit,
            again,
        ),
    ensures
        again.len() == 0,
        TickView::begun(again, concurrency).asked().1 == ActionView::Finish(0),
        after_tick(
            policy,
            after_tick(policy, mails, taken, attempts),
            again,
            Seq::empty(),
        ) == after_tick(policy, mails, taken, attempts),
{
    let after = after_tick(policy, mails, taken, attempts);
    let chosen = choose|chosen: Seq<int>|
        #![trigger chosen.len()]
        is_selection(mails, |m: MailView| is_due(m, at), limit, chosen) && taken
            == chosen.map_values(|i: int| mails[i]);
    lemma_selection_distinct(mails, |m: MailView| is_due(m, at), limit, chosen, taken);
    law_tick_records_every_delivery(policy, mails, taken, attempts);
    let places = choose|places: Seq<int>|
        #![trigger places.len()]
        is_selection(after, |m: MailView| is_due(m, t), limit, places) && again
            == places.map_values(|i: int| after[i]);
    if again.len() > 0 {
        let mail = after[places[0]];
        assert(is_due(mail, t));
        law_every_mail_is_got(after, places[0], mail.id);
        if exists|k: int| 0 <= k < taken.len() && (#[trigger] taken[k]).id == mail.id {
            let k = choose|k: int| 0 <= k < taken.len() && (#[trigger] taken[k]).id == mail.id;
            assert(mail == after_attempt(policy, taken[k], attempts[k]));
        } else {
            assert(mail_with(mails, mail.id) == Some(mail));
            assert(mails.len() > 0);
            law_every_mail_is_got(mails, 0, mail.id);
            let i = choose|i: int| 0 <= i < mails.len() && mails[i] == mail;
            assert(is_due(mails[i], at));
            let k = choose|k: int| 0 <= k < taken.len() && taken[k] == mails[i];
            assert(taken[k].id == mail.id);
        }
    }
}

/// A tick over one new mail whose delivery fails leaves it in the queue as a mail that failed
/// once, with its next attempt later than now. A second tick right away ends with no mail taken
/// up, and the mail stays as it is.
pub proof fn law_failing_tick_backs_off(
    policy: RetryPolicy,
    mail: MailView,
    at: Timestamp,
    limit: nat,
    taken_at: Timestamp,
    error: Seq<char>,
    now: Timestamp,
    again: Seq<MailView>,
    concurrency: nat,
)
    requires
        is_due(mail, at),
        mail.attempts == 0,
        limit > 0,
        policy.max_attempts > 1,
        policy.base_delay.length() > 0,
        policy.max_delay.length() > 0,
        MIN_SECS <= now.secs() <= MAX_SECS,
        now.nanos() < 1_000_000_000,
        now.can_add(wait(policy, 1)),
        selects(
            after_tick(
                policy,
                seq![mail],
                seq![mail],
                seq![Attempt { taken_at, failure: Some(error), ended_at: now }],
            ),
            |m: MailView| is_due(m, now),
            limit,
            again,
        ),
    ensures
        selects(seq![mail], |m: MailView| is_due(m, at), limit, seq![mail]),
        ({
            let attempt = Attempt { taken_at, failure: Some(error), ended_at: now };
            let after = after_tick(policy, seq![mail], seq![mail], seq![attempt]);
            &&& mail_with(after, mail.id) matches Some(stored) && {
                &&& stored.status == MailStatus::Failed
                &&& stored.attempts == 1
                &&& stored.last_error == Some(error)
                &&& now.precedes(stored.next_attempt_at)
            }
            &&& TickView::begun(again, concurrency).asked().1 == ActionView::Finish(0)
            &&& after_tick(policy, after, again, Seq::empty()) == after
        }),
{
    let mails = seq![mail];
    let attempts = seq![Attempt { taken_at, failure: Some(error), ended_at: now }];
    let wanted = |m: MailView| is_due(m, at);
    assert(mails.contains(mail)) by {
        assert(mails[0] == mail);
    }
    assert(selects(mails, wanted, limit, mails)) by {
        let chosen = seq![0int];
        assert(chosen[0] == 0);
        assert(chosen.contains(0));
        assert(is_selection(mails, wanted, limit, chosen));
        assert(mails == chosen.map_values(|i: int| mails[i]));
        assert(chosen.len() == 1);
    }
    law_failure_reschedules(policy, mails, mails, attempts, 0);
    law_retry_waits(policy, 1, now);
    law_next_tick_finds_nothing(policy, mails, at, limit, mails, attempts, now, again, concurrency);
}

/// The mails of a selection are mails of the queue, none of them twice.
proof fn lemma_selection_distinct(
    mails: Seq<MailView>,
    wanted: spec_fn(MailView) -> bool,
    limit: nat,
    chosen: Seq<int>,
    taken: Seq<MailView>,
)
    requires
        distinct_ids(mails),
        is_selection(mails, wanted, limit, chosen),
        taken == chosen.map_values(|i: int| mails[i]),
    ensures
        distinct_ids(taken),
        forall|k: int| 0 <= k < taken.len() ==> mails.contains(#[trigger] taken[k]),
{
    assert forall|k: int, l: int| 0 <= k < l < taken.len() implies #[trigger] taken[k].id
        != #[trigger] taken[l].id by {
        assert(comes_before(mails, chosen[k], chosen[l]));
        if chosen[k] < chosen[l] {
            assert(mails[chosen[k]].id != mails[chosen[l]].id);
        } else if chosen[l] < chosen[k] {
            assert(mails[chosen[l]].id != mails[chosen[k]].id);
        }
    }
}

/// A mail is carried by the transport that it names wherever that stands among the transports,
/// and by none where it does not.
pub proof fn law_named_transport_carries(d: Dispatcher, name: Seq<char>)
    ensures
        (exists|i: int| 0 <= i < d.transports@.len() && (#[trigger] d.transports@[i])@ == name)
            ==> d.carrier(Some(name)) == Some(name),
        (forall|i: int| 0 <= i < d.transports@.len() ==> (#[trigger] d.transports@[i])@ != name)
            ==> d.carrier(Some(name)) is None,
{
    lemma_listed(d.transports@, name);
}

/// A mail that names no transport is carried by the default one wherever that stands among the
/// transports. Without a default, or where it is not among them, none carries it.
pub proof fn law_default_transport_carries(d: Dispatcher)
    ensures
        d.default_transport is None ==> d.carrier(None) is None,
        d.default_transport matches Some(name) ==> {
            &&& (exists|i: int|
                0 <= i < d.transports@.len() && (#[trigger] d.transports@[i])@ == name@)
                ==> d.carrier(None) == Some(name@)
            &&& (forall|i: int|
                0 <= i < d.transports@.len() ==> (#[trigger] d.transports@[i])@ != name@)
                ==> d.carrier(None) is None
        },
{
    if let Some(name) = d.default_transport {
        lemma_listed(d.transports@, name@);
    }
}

/// A text is among those of a list where one of the strings is that text.
proof fn lemma_listed(list: Seq<String>, name: Seq<char>)
    ensures
        strings(list).contains(name) <==> exists|i: int|
            0 <= i < list.len() && (#[trigger] list[i])@ == name,
{
    if strings(list).contains(name) {
        let i = choose|i: int| 0 <= i < strings(list).len() && strings(list)[i] == name;
        assert(list[i]@ == name);
    }
    if exists|i: int| 0 <= i < list.len() && (#[trigger] list[i])@ == name {
        let i = choose|i: int| 0 <= i < list.len() && (#[trigger] list[i])@ == name;
        assert(strings(list)[i] == name);
    }
}

/// A delivery that succeeded is recorded as sent. One that failed is recorded with what went
/// wrong: for good once as many attempts were made as the policy allows, and else to be repeated
/// after the delay of the policy, or after a minute where that is too long to be added to a
/// point in time.
pub proof fn law_outcome_of_a_delivery(
    policy: RetryPolicy,
    attempts: u32,
    error: Seq<char>,
    now: Timestamp,
)
    requires
        attempts < u32::MAX,
        MIN_SECS <= now.secs() <= MAX_SECS,
        now.nanos() < 1_000_000_000,
    ensures
        settled(policy, attempts, None, now) is Sent,
        attempts + 1 >= policy.max_attempts ==> settled(policy, attempts, Some(error), now) == (
        UpdateView::Dead { error }),
        attempts + 1 < policy.max_attempts ==> ({
            let delay = policy.delay((attempts + 1) as u32);
            let waits = if delay <= i64::MAX * 1_000_000 {
                delay
            } else {
                60_000_000_000
            };
            let end = now.secs() * 1_000_000_000 + now.nanos() + waits;
            &&& settled(policy, attempts, Some(error), now) matches UpdateView::Failed {
                error: recorded,
                retry_at,
            } && recorded == error && (0 <= waits && end < (MAX_SECS + 1) * 1_000_000_000
                ==> retry_at.secs() * 1_000_000_000 + retry_at.nanos() == end && retry_at.nanos()
                < 1_000_000_000)
        }),
{
    let waits = wait(policy, (attempts + 1) as u32);
    let end = now.secs() * 1_000_000_000 + now.nanos() + waits;
    if 0 <= waits && end < (MAX_SECS + 1) * 1_000_000_000 {
        law_later_by_the_span(now, waits);
    }
}

/// A failed delivery can be recorded where the attempt can be counted, and the policy allows no
/// further attempt or the time of the next one exists.
pub proof fn law_when_a_failure_can_be_recorded(d: Dispatcher, mail: MailView, now: Timestamp)
    requires
        now.nanos() < 1_000_000_000,
        d.config.retry.delay((mail.attempts + 1) as u32) >= 0,
    ensures
        d.can_record(mail, now) <==> {
            &&& mail.attempts < u32::MAX
            &&& {
                let delay = d.config.retry.delay((mail.attempts + 1) as u32);
                let waits = if delay <= i64::MAX * 1_000_000 {
                    delay
                } else {
                    60_000_000_000
                };
                ||| mail.attempts + 1 >= d.config.retry.max_attempts
                ||| now.secs() * 1_000_000_000 + now.nanos() + waits < (MAX_SECS + 1)
                    * 1_000_000_000
            }
        },
{
}

/// What is recorded of a mail that no transport can carry starts with that and holds what the
/// mail asked for and what the default is.
pub proof fn law_unroutable_mail_says_why(
    requested: Option<Seq<char>>,
    default: Option<Seq<char>>,
)
    ensures
        ({
            let text = unroutable(requested, default);
            let head = "no transport available (requested "@;
            let at = head.len() + debug_text(requested).len();
            &&& occurs_at(text, head, 0)
            &&& occurs_at(text, debug_text(requested), head.len() as int)
            &&& occurs_at(text, ", default "@, at as int)
            &&& occurs_at(text, debug_text(default), (at + ", default "@.len()) as int)
            &&& text.last() == ')'
            &&& text.len() == at + ", default "@.len() + debug_text(default).len() + 1
        }),
{
    reveal_strlit(")");
    let head = "no transport available (requested "@;
    let text = unroutable(requested, default);
    let a = head.len() as int;
    let b = a + debug_text(requested).len();
    let c = b + ", default "@.len();
    assert(text.subrange(0, a) == head);
    assert(text.subrange(a, b) == debug_text(requested));
    assert(text.subrange(b, c) == ", default "@);
    assert(text.subrange(c, c + debug_text(default).len()) == debug_text(default));
}

/// A tick does not idle: it takes up the mail in turn unless one that was taken up waits, starts
/// that one as long as fewer deliveries run than may, and waits only for a delivery to end.
pub proof fn law_tick_does_not_idle(tick: TickView)
    ensures
        tick.held is Some && tick.in_flight < tick.limit ==> tick.asked().1 == ActionView::Deliver(
            tick.held->0,
        ),
        tick.held is None && tick.next < tick.due.len() ==> tick.asked().1 == ActionView::Claim(
            tick.due[tick.next as int].id,
        ),
        tick.asked().1 is Wait ==> {
            ||| tick.held is Some && tick.in_flight >= tick.limit
            ||| tick.held is None && tick.next >= tick.due.len() && tick.in_flight > 0
        },
        tick.held is None && tick.next >= tick.due.len() && tick.in_flight == 0 ==> tick.asked().1
            == ActionView::Finish(tick.processed),
        tick.asked().1 is Deliver ==> tick.asked().0.in_flight == tick.in_flight + 1
            && tick.asked().0.processed == tick.processed + 1 && tick.asked().0.held is None,
        tick.in_flight > 0 ==> tick.relieved().in_flight == tick.in_flight - 1,
{
}

/// The record of a mail after a delivery that succeeded: sent, with one more attempt and no
/// error, and with what it says unchanged.
pub proof fn law_success_is_recorded(policy: RetryPolicy, mail: MailView, attempt: Attempt)
    requires
        attempt.failure is None,
        mail.attempts < u32::MAX,
    ensures
        ({
            let after = after_attempt(policy, mail, attempt);
            &&& after.status is Sent
            &&& after.attempts == mail.attempts + 1
            &&& after.last_error is None
            &&& after.updated_at == attempt.ended_at
            &&& after.id == mail.id && after.from == mail.from && after.to == mail.to
            &&& after.subject == mail.subject && after.body == mail.body
            &&& after.transport == mail.transport && after.created_at == mail.created_at
        }),
{
}

/// A mail that is to be delivered goes to the transport that it names, or to the default one where
/// it names none, whenever that is one of the transports.
pub proof fn law_delivery_goes_to_the_transport(
    d: &Dispatcher,
    mail: &Mail,
    delivery: Delivery,
    wished: String,
    i: int,
)
    requires
        call_ensures(Dispatcher::deliver, (d, mail), delivery),
        mail.transport == Some(wished) || (mail.transport is None && d.default_transport == Some(
            wished,
        )),
        0 <= i < d.transports@.len(),
        d.transports@[i]@ == wished@,
    ensures
        delivery matches Delivery::Send { transport } && transport@ == wished@,
{
    law_named_transport_carries(*d, wished@);
    law_default_transport_carries(*d);
}

/// A mail that names a transport which is not one of the transports, or names none where there is
/// no default among them, is buried with what is missing.
pub proof fn law_mail_without_a_transport_is_buried(
    d: &Dispatcher,
    mail: &Mail,
    delivery: Delivery,
)
    requires
        call_ensures(Dispatcher::deliver, (d, mail), delivery),
        forall|i: int|
            0 <= i < d.transports@.len() ==> {
                &&& mail.transport matches Some(name) ==> (#[trigger] d.transports@[i])@ != name@
                &&& mail.transport is None ==> (d.default_transport matches Some(name)
                    ==> d.transports@[i]@ != name@)
            },
    ensures
        delivery matches Delivery::Bury { update } && (update matches QueueUpdate::Dead { error }
            && error@ == unroutable(opt_text(mail.transport), opt_text(d.default_transport))),
{
    if let Some(name) = mail.transport {
        law_named_transport_carries(*d, name@);
    }
    law_default_transport_carries(*d);
}

/// What a transport answered is recorded: sent where it succeeded, and else what went wrong, with
/// another attempt as long as the policy allows one.
pub proof fn law_settled_by_the_answer(
    d: &Dispatcher,
    mail: &Mail,
    outcome: Result<(), CoreError>,
    now: Timestamp,
    update: QueueUpdate,
)
    requires
        call_ensures(Dispatcher::settle, (d, mail, outcome, now), update),
        mail.attempts < u32::MAX,
    ensures
        outcome is Ok ==> update is Sent,
        outcome matches Err(e) ==> {
            if mail.attempts + 1 >= d.config.retry.max_attempts {
                update matches QueueUpdate::Dead { error } && error@ == e.text()
            } else {
                update matches QueueUpdate::Failed { error, .. } && error@ == e.text()
            }
        },
{
}

/// A tick goes through all mails that the queue handed out, from the first on, with as many
/// deliveries at a time as the settings allow.
pub proof fn law_tick_starts_with_all_mails(
    d: &Dispatcher,
    fetched: Result<Vec<Mail>, CoreError>,
    tick: Tick,
)
    requires
        call_ensures(Dispatcher::tick, (d, fetched), tick),
    ensures
        tick@.next == 0 && tick@.held is None && tick@.in_flight == 0 && tick@.processed == 0,
        tick@.limit == d.config.concurrency,
        fetched is Err ==> tick@.due.len() == 0,
        fetched matches Ok(due) ==> tick@.due.len() == due@.len() && forall|i: int|
            0 <= i < due@.len() ==> #[trigger] tick@.due[i] == due@[i]@,
{
}

/// A failed delivery that leaves an attempt is repeated after the delay of the policy, counted
/// from its end.
pub proof fn law_retry_is_set_after_the_delay(
    d: &Dispatcher,
    mail: &Mail,
    e: CoreError,
    now: Timestamp,
    update: QueueUpdate,
    attempts: u32,
    delay: Duration,
)
    requires
        call_ensures(Dispatcher::settle, (d, mail, Err(e), now), update),
        mail.attempts + 1 == attempts,
        attempts < d.config.retry.max_attempts,
        call_ensures(RetryPolicy::backoff, (&d.config.retry, attempts), delay),
        0 <= delay.length() <= i64::MAX * 1_000_000,
        MIN_SECS <= now.secs() <= MAX_SECS,
        now.nanos() < 1_000_000_000,
        now.secs() * 1_000_000_000 + now.nanos() + delay.length() < (MAX_SECS + 1) * 1_000_000_000,
    ensures
        update matches QueueUpdate::Failed { retry_at, .. } && retry_at.secs() * 1_000_000_000
            + retry_at.nanos() == now.secs() * 1_000_000_000 + now.nanos() + delay.length(),
{
    law_outcome_of_a_delivery(d.config.retry, mail.attempts, e.text(), now);
}

} // verus!
