//! The queue: what may be delivered next, and how the record of a mail changes.

use vstd::prelude::*;

use crate::error::CoreError;
use crate::id::{write_id, MailId};
use crate::message::{Mail, MailStatus};
use crate::time::{Duration, Timestamp};

verus! {

use crate::id::id_text;
use crate::message::{queued, MailView, NewMailView};
use crate::text::opt_text;

/// A change to the record of a mail.
#[derive(Debug)]
pub enum QueueUpdate {
    /// An attempt ended in the given state.
    Status {
        /// The new state.
        status: MailStatus,
        /// What went wrong, if anything did.
        last_error: Option<String>,
    },
    /// A delivery has taken the mail up.
    Sending,
    /// The mail was delivered.
    Sent,
    /// An attempt failed; the mail may be attempted again from `retry_at` on.
    Failed {
        /// What went wrong.
        error: String,
        /// The earliest time of the next attempt.
        retry_at: Timestamp,
    },
    /// The mail failed for good.
    Dead {
        /// What went wrong.
        error: String,
    },
    /// The delivery that had taken the mail up is gone.
    Requeue,
}

/// What a [`QueueUpdate`] stands for.
pub enum UpdateView {
    Status { status: MailStatus, last_error: Option<Seq<char>> },
    Sending,
    Sent,
    Failed { error: Seq<char>, retry_at: Timestamp },
    Dead { error: Seq<char> },
    Requeue,
}

impl View for QueueUpdate {
    type V = UpdateView;

    open spec fn view(&self) -> UpdateView {
        match *self {
            QueueUpdate::Status { status, last_error } => UpdateView::Status {
                status,
                last_error: opt_text(last_error),
            },
            QueueUpdate::Sending => UpdateView::Sending,
            QueueUpdate::Sent => UpdateView::Sent,
            QueueUpdate::Failed { error, retry_at } => UpdateView::Failed {
                error: error@,
                retry_at,
            },
            QueueUpdate::Dead { error } => UpdateView::Dead { error: error@ },
            QueueUpdate::Requeue => UpdateView::Requeue,
        }
    }
}

/// The number of attempts after one more. The count has 32 bits and starts again at zero.
pub open spec fn one_more(attempts: u32) -> u32 {
    if attempts == u32::MAX {
        0
    } else {
        (attempts + 1) as u32
    }
}

/// The mail after an attempt that ended in `status` at the time `now`.
pub open spec fn attempted(
    mail: MailView,
    status: MailStatus,
    last_error: Option<Seq<char>>,
    now: Timestamp,
) -> MailView {
    MailView { status, last_error, attempts: one_more(mail.attempts), updated_at: now, ..mail }
}

/// The mail after a change at the time `now`. What a delivery ends in counts as an attempt;
/// taking a mail up and giving it back do not.
pub open spec fn updated(mail: MailView, update: UpdateView, now: Timestamp) -> MailView {
    match update {
        UpdateView::Status { status, last_error } => attempted(mail, status, last_error, now),
        UpdateView::Sending => MailView { status: MailStatus::Sending, updated_at: now, ..mail },
        UpdateView::Sent => attempted(mail, MailStatus::Sent, None, now),
        UpdateView::Failed { error, retry_at } => MailView {
            next_attempt_at: retry_at,
            ..attempted(mail, MailStatus::Failed, Some(error), now)
        },
        UpdateView::Dead { error } => attempted(mail, MailStatus::Dead, Some(error), now),
        UpdateView::Requeue => MailView { status: MailStatus::Pending, updated_at: now, ..mail },
    }
}

/// Changes the record of a mail at the time `now`.
pub fn apply_update(mail: &mut Mail, update: QueueUpdate, now: Timestamp)
    ensures
        final(mail)@ == updated(old(mail)@, update@, now),
{
    match update {
        QueueUpdate::Status { status, last_error } => {
            mail.status = status;
            mail.last_error = last_error;
            mail.attempts = mail.attempts.wrapping_add(1);
        },
        QueueUpdate::Sending => {
            mail.status = MailStatus::Sending;
        },
        QueueUpdate::Sent => {
            mail.status = MailStatus::Sent;
            mail.last_error = None;
            mail.attempts = mail.attempts.wrapping_add(1);
        },
        QueueUpdate::Failed { error, retry_at } => {
            mail.status = MailStatus::Failed;
            mail.last_error = Some(error);
            mail.attempts = mail.attempts.wrapping_add(1);
            mail.next_attempt_at = retry_at;
        },
        QueueUpdate::Dead { error } => {
            mail.status = MailStatus::Dead;
            mail.last_error = Some(error);
            mail.attempts = mail.attempts.wrapping_add(1);
        },
        QueueUpdate::Requeue => {
            mail.status = MailStatus::Pending;
        },
    }
    mail.updated_at = now;
}

/// The mail waits for a delivery: it is new, or an attempt failed and may be repeated.
pub open spec fn is_waiting(mail: MailView) -> bool {
    mail.status == MailStatus::Pending || mail.status == MailStatus::Failed
}

/// The mail may be delivered at the time `now`.
pub open spec fn is_due(mail: MailView, now: Timestamp) -> bool {
    is_waiting(mail) && !now.precedes(mail.next_attempt_at)
}

/// The mail has been in delivery for longer than `lease` at the time `now`.
pub open spec fn is_stale(mail: MailView, now: Timestamp, lease: Duration) -> bool {
    mail.status == MailStatus::Sending && now.unix_nanos() - mail.updated_at.unix_nanos()
        > lease.length()
}

/// The mail at position `i` comes before the one at `j`: it was created earlier, or at the same
/// time and was queued first.
pub open spec fn comes_before(mails: Seq<MailView>, i: int, j: int) -> bool {
    ||| mails[i].created_at.precedes(mails[j].created_at)
    ||| !mails[j].created_at.precedes(mails[i].created_at) && i < j
}

/// `chosen` holds the positions of the first `limit` mails that satisfy `wanted`, the oldest
/// first; all of them where there are no more than `limit`.
pub open spec fn is_selection(
    mails: Seq<MailView>,
    wanted: spec_fn(MailView) -> bool,
    limit: nat,
    chosen: Seq<int>,
) -> bool {
    &&& chosen.len() <= limit
    &&& forall|k: int|
        0 <= k < chosen.len() ==> 0 <= #[trigger] chosen[k] < mails.len() && wanted(mails[chosen[k]])
    &&& forall|k: int, l: int|
        0 <= k < l < chosen.len() ==> comes_before(mails, #[trigger] chosen[k], #[trigger] chosen[l])
    &&& forall|i: int|
        0 <= i < mails.len() && wanted(#[trigger] mails[i]) && !chosen.contains(i) ==> chosen.len()
            == limit && (limit > 0 ==> comes_before(mails, chosen.last(), i))
}

/// What a list of mails stands for.
pub open spec fn mail_views(list: Seq<Mail>) -> Seq<MailView> {
    list.map_values(|m: Mail| m@)
}

/// `result` holds the mails of `mails` at a selection as [`is_selection`] says.
pub open spec fn selects(
    mails: Seq<MailView>,
    wanted: spec_fn(MailView) -> bool,
    limit: nat,
    result: Seq<MailView>,
) -> bool {
    exists|chosen: Seq<int>|
        #![trigger chosen.len()]
        is_selection(mails, wanted, limit, chosen) && result == chosen.map_values(
            |i: int| mails[i],
        )
}

/// Two selections with the same limit are the same.
proof fn lemma_same_selection(
    mails: Seq<MailView>,
    wanted: spec_fn(MailView) -> bool,
    limit: nat,
    a: Seq<int>,
    b: Seq<int>,
    k: int,
)
    requires
        is_selection(mails, wanted, limit, a),
        is_selection(mails, wanted, limit, b),
        0 <= k <= a.len(),
    ensures
        k <= b.len(),
        forall|j: int| 0 <= j < k ==> #[trigger] a[j] == b[j],
    decreases k,
{
    if k > 0 {
        lemma_same_selection(mails, wanted, limit, a, b, k - 1);
        let x = a[k - 1];
        assert(wanted(mails[x]));
        if b.len() < k {
            assert(!b.contains(x)) by {
                if b.contains(x) {
                    let p = choose|p: int| 0 <= p < b.len() && b[p] == x;
                    assert(a[p] == b[p]);
                    assert(comes_before(mails, a[p], a[k - 1]));
                }
            }
            assert(false);
        }
        let y = b[k - 1];
        assert(wanted(mails[y]));
        if x != y {
            lemma_no_gap(mails, wanted, limit, b, a, k - 1);
            lemma_no_gap(mails, wanted, limit, a, b, k - 1);
        }
    }
}

proof fn lemma_no_gap(
    mails: Seq<MailView>,
    wanted: spec_fn(MailView) -> bool,
    limit: nat,
    b: Seq<int>,
    a: Seq<int>,
    k: int,
)
    requires
        is_selection(mails, wanted, limit, a),
        is_selection(mails, wanted, limit, b),
        0 <= k < a.len(),
        k < b.len(),
        forall|j: int| 0 <= j < k ==> #[trigger] a[j] == b[j],
    ensures
        !comes_before(mails, a[k], b[k]),
{
    let x = a[k];
    if !comes_before(mails, x, b[k]) {
    } else if b.contains(x) {
        let p = choose|p: int| 0 <= p < b.len() && b[p] == x;
        if p > k {
            assert(comes_before(mails, b[k], b[p]));
        } else if p < k {
            assert(a[p] == b[p]);
            assert(comes_before(mails, a[p], a[k]));
        }
    } else {
        assert(wanted(mails[x]));
        let last = b.len() - 1;
        if last > k {
            assert(comes_before(mails, b[k], b[last]));
        }
    }
}

/// The queue gives the same mails whenever it is asked with the same contents and limit.
pub proof fn law_selection_unique(
    mails: Seq<MailView>,
    wanted: spec_fn(MailView) -> bool,
    limit: nat,
    a: Seq<MailView>,
    b: Seq<MailView>,
)
    requires
        selects(mails, wanted, limit, a),
        selects(mails, wanted, limit, b),
    ensures
        a == b,
{
    let x = choose|x: Seq<int>|
        #![trigger x.len()]
        is_selection(mails, wanted, limit, x) && a == x.map_values(|i: int| mails[i]);
    let y = choose|y: Seq<int>|
        #![trigger y.len()]
        is_selection(mails, wanted, limit, y) && b == y.map_values(|i: int| mails[i]);
    lemma_same_selection(mails, wanted, limit, x, y, x.len() as int);
    lemma_same_selection(mails, wanted, limit, y, x, y.len() as int);
    assert(x == y);
}

/// Whether the mail waits for a delivery and, where a time is given, is due then.
fn wants_delivery(mail: &Mail, now: Option<Timestamp>) -> (yes: bool)
    ensures
        yes == (match now {
            Some(now) => is_due(mail@, now),
            None => is_waiting(mail@),
        }),
{
    if mail.status != MailStatus::Pending && mail.status != MailStatus::Failed {
        return false;
    }
    match now {
        Some(now) => !now.is_before(&mail.next_attempt_at),
        None => true,
    }
}

/// Which mails a selection takes.
spec fn wanted_at(now: Option<Timestamp>) -> spec_fn(MailView) -> bool {
    match now {
        Some(now) => |m: MailView| is_due(m, now),
        None => |m: MailView| is_waiting(m),
    }
}

/// Whether the mail at `i` comes before the one at `j`.
fn earlier(mails: &Vec<Mail>, i: usize, j: usize) -> (yes: bool)
    requires
        i < mails@.len(),
        j < mails@.len(),
    ensures
        yes == comes_before(mail_views(mails@), i as int, j as int),
{
    mails[i].created_at.is_before(&mails[j].created_at) || (!mails[j].created_at.is_before(
        &mails[i].created_at,
    ) && i < j)
}

/// The first mail that is wanted and comes after the one at `last`.
fn next_wanted(mails: &Vec<Mail>, now: Option<Timestamp>, last: Option<usize>) -> (next: Option<
    usize,
>)
    requires
        last matches Some(l) ==> l < mails@.len(),
    ensures
        match next {
            Some(n) => {
                &&& n < mails@.len()
                &&& wanted_at(now)(mails@[n as int]@)
                &&& last matches Some(l) ==> comes_before(mail_views(mails@), l as int, n as int)
                &&& forall|i: int|
                    0 <= i < mails@.len() && i != n && wanted_at(now)(#[trigger] mails@[i]@) && (
                    last matches Some(l) ==> comes_before(mail_views(mails@), l as int, i))
                        ==> comes_before(mail_views(mails@), n as int, i)
            },
            None => forall|i: int|
                0 <= i < mails@.len() && wanted_at(now)(#[trigger] mails@[i]@) ==> (
                last matches Some(l) && !comes_before(mail_views(mails@), l as int, i)),
        },
{
    let mut next: Option<usize> = None;
    let mut i: usize = 0;
    while i < mails.len()
        invariant
            i <= mails@.len(),
            last matches Some(l) ==> l < mails@.len(),
            match next {
                Some(n) => {
                    &&& n < i
                    &&& wanted_at(now)(mails@[n as int]@)
                    &&& last matches Some(l) ==> comes_before(
                        mail_views(mails@),
                        l as int,
                        n as int,
                    )
                    &&& forall|j: int|
                        0 <= j < i && j != n && wanted_at(now)(#[trigger] mails@[j]@) && (
                        last matches Some(l) ==> comes_before(mail_views(mails@), l as int, j))
                            ==> comes_before(mail_views(mails@), n as int, j)
                },
                None => forall|j: int|
                    0 <= j < i && wanted_at(now)(#[trigger] mails@[j]@) ==> (
                    last matches Some(l) && !comes_before(mail_views(mails@), l as int, j)),
            },
        decreases mails@.len() - i,
    {
        let candidate = wants_delivery(&mails[i], now) && match last {
            Some(l) => earlier(mails, l, i),
            None => true,
        };
        if candidate {
            next = match next {
                Some(n) => if earlier(mails, n, i) {
                    Some(n)
                } else {
                    Some(i)
                },
                None => Some(i),
            };
        }
        i += 1;
    }
    next
}

/// The first `limit` mails that wait for a delivery and, where a time is given, are due then.
fn select(mails: &Vec<Mail>, limit: u32, now: Option<Timestamp>) -> (result: Vec<Mail>)
    ensures
        selects(mail_views(mails@), wanted_at(now), limit as nat, mail_views(result@)),
{
    let ghost views = mail_views(mails@);
    let ghost wanted = wanted_at(now);
    let ghost mut chosen: Seq<int> = Seq::empty();
    let mut result: Vec<Mail> = Vec::new();
    let mut last: Option<usize> = None;
    let mut count: u32 = 0;
    let mut open: bool = true;
    while open && count < limit
        invariant
            count <= limit,
            chosen.len() == count,
            views == mail_views(mails@),
            wanted == wanted_at(now),
            result@.len() == count,
            forall|k: int| 0 <= k < count ==> #[trigger] result@[k]@ == views[chosen[k]],
            last matches Some(l) ==> count > 0 && chosen.last() == l && l < mails@.len(),
            last is None ==> count == 0,
            forall|k: int|
                0 <= k < chosen.len() ==> 0 <= #[trigger] chosen[k] < views.len() && wanted(
                    views[chosen[k]],
                ),
            forall|k: int, l: int|
                0 <= k < l < chosen.len() ==> comes_before(
                    views,
                    #[trigger] chosen[k],
                    #[trigger] chosen[l],
                ),
            forall|i: int|
                0 <= i < views.len() && wanted(#[trigger] views[i]) && !chosen.contains(i) ==> open
                    && (count > 0 ==> comes_before(views, chosen.last(), i)),
        decreases
            limit - count,
            if open {
                1int
            } else {
                0int
            },
    {
        match next_wanted(mails, now, last) {
            Some(n) => {
                result.push(mails[n].clone());
                proof {
                    let before = chosen;
                    chosen = chosen.push(n as int);
                    assert(views[n as int] == mails@[n as int]@);
                    assert forall|i: int|
                        0 <= i < views.len() && wanted(#[trigger] views[i]) && !chosen.contains(
                            i,
                        ) implies comes_before(views, n as int, i) by {
                        assert(views[i] == mails@[i]@);
                        assert(!before.contains(i)) by {
                            if before.contains(i) {
                                let p = choose|p: int| 0 <= p < before.len() && before[p] == i;
                                assert(chosen[p] == i);
                            }
                        }
                        assert(i != n) by {
                            assert(chosen[before.len() as int] == n);
                        }
                    }
                }
                last = Some(n);
                count += 1;
            },
            None => {
                proof {
                    assert forall|i: int|
                        0 <= i < views.len() && wanted(#[trigger] views[i]) implies chosen.contains(
                        i,
                    ) by {
                        assert(views[i] == mails@[i]@);
                    }
                }
                open = false;
            },
        }
    }
    proof {
        assert(is_selection(views, wanted, limit as nat, chosen));
        assert(mail_views(result@) == chosen.map_values(|i: int| views[i]));
        assert(chosen.len() == count);
    }
    result
}

/// Up to `limit` of the mails that wait for a delivery, the oldest first.
pub fn select_pending(mails: &Vec<Mail>, limit: u32) -> (result: Vec<Mail>)
    ensures
        selects(
            mail_views(mails@),
            |m: MailView| is_waiting(m),
            limit as nat,
            mail_views(result@),
        ),
{
    select(mails, limit, None)
}

/// Up to `limit` of the mails that may be delivered at the time `now`, the oldest first.
pub fn select_due(mails: &Vec<Mail>, limit: u32, now: Timestamp) -> (result: Vec<Mail>)
    ensures
        selects(
            mail_views(mails@),
            |m: MailView| is_due(m, now),
            limit as nat,
            mail_views(result@),
        ),
{
    select(mails, limit, Some(now))
}

/// Whether the mail has been in delivery for longer than `lease` at the time `now`.
pub fn stale(mail: &Mail, now: Timestamp, lease: Duration) -> (yes: bool)
    ensures
        yes == is_stale(mail@, now, lease),
{
    if mail.status != MailStatus::Sending {
        return false;
    }
    let age: i128 = now.as_nanos() - mail.updated_at.as_nanos();
    age > lease.as_nanos() as i128
}

/// No two mails have the same identifier.
pub open spec fn distinct_ids(mails: Seq<MailView>) -> bool {
    forall|i: int, j: int|
        0 <= i < j < mails.len() ==> #[trigger] mails[i].id != #[trigger] mails[j].id
}

/// The position of the first mail from `from` on with the identifier `id`; the number of mails
/// where there is none.
pub open spec fn place_of(mails: Seq<MailView>, id: MailId, from: int) -> int
    decreases mails.len() - from,
{
    if from >= mails.len() {
        mails.len() as int
    } else if mails[from].id == id {
        from
    } else {
        place_of(mails, id, from + 1)
    }
}

/// The mail with the identifier `id`.
pub open spec fn mail_with(mails: Seq<MailView>, id: MailId) -> Option<MailView> {
    let i = place_of(mails, id, 0);
    if i < mails.len() {
        Some(mails[i])
    } else {
        None
    }
}

/// What the search for an identifier finds.
proof fn lemma_place_of(mails: Seq<MailView>, id: MailId, from: int)
    requires
        0 <= from <= mails.len(),
    ensures
        from <= place_of(mails, id, from) <= mails.len(),
        place_of(mails, id, from) < mails.len() ==> mails[place_of(mails, id, from)].id == id,
        forall|i: int| from <= i < place_of(mails, id, from) ==> #[trigger] mails[i].id != id,
    decreases mails.len() - from,
{
    if from < mails.len() && mails[from].id != id {
        lemma_place_of(mails, id, from + 1);
    }
}

/// The mails after one of them was changed.
pub open spec fn changed(
    mails: Seq<MailView>,
    id: MailId,
    update: UpdateView,
    now: Timestamp,
) -> Seq<MailView> {
    let i = place_of(mails, id, 0);
    mails.update(i, updated(mails[i], update, now))
}

/// The mails after those that satisfy `lost` were given back.
pub open spec fn requeued(
    mails: Seq<MailView>,
    lost: spec_fn(MailView) -> bool,
    now: Timestamp,
) -> Seq<MailView> {
    mails.map_values(
        |m: MailView|
            if lost(m) {
                updated(m, UpdateView::Requeue, now)
            } else {
                m
            },
    )
}

/// The number of mails that satisfy `p`.
pub open spec fn count_of(mails: Seq<MailView>, p: spec_fn(MailView) -> bool) -> nat
    decreases mails.len(),
{
    if mails.len() == 0 {
        0
    } else {
        count_of(mails.drop_last(), p) + (if p(mails.last()) {
            1nat
        } else {
            0nat
        })
    }
}

/// `e` says that there is no mail with the identifier `id`.
pub open spec fn says_not_found(e: CoreError, id: MailId) -> bool {
    e matches CoreError::NotFound(text) && text@ == id_text(id)
}

/// A queue of mails. Every mail in it has an identifier of its own.
#[derive(Debug)]
pub struct MailQueue {
    mails: Vec<Mail>,
}

impl View for MailQueue {
    type V = Seq<MailView>;

    closed spec fn view(&self) -> Seq<MailView> {
        mail_views(self.mails@)
    }
}

impl MailQueue {
    #[verifier::type_invariant]
    spec fn consistent(&self) -> bool {
        distinct_ids(self@)
    }

    /// The empty queue.
    pub fn new() -> (queue: Self)
        ensures
            queue@ == Seq::<MailView>::empty(),
    {
        let mails: Vec<Mail> = Vec::new();
        let queue = MailQueue { mails };
        assert(queue@ == Seq::<MailView>::empty());
        queue
    }

    /// The position of the mail with the identifier `id`; the number of mails where there is
    /// none.
    fn find(&self, id: MailId) -> (i: usize)
        ensures
            i == place_of(self@, id, 0),
            i <= self.mails@.len() == self@.len(),
    {
        let n: usize = self.mails.len();
        let mut i: usize = 0;
        while i < n
            invariant
                i <= n == self.mails@.len(),
                self@.len() == n,
                place_of(self@, id, 0) == place_of(self@, id, i as int),
            decreases n - i,
        {
            if self.mails[i].id == id {
                return i;
            }
            i += 1;
        }
        n
    }

    /// Adds a mail at the end and returns it. A second mail with the same identifier is
    /// refused.
    pub fn enqueue(&mut self, mail: Mail) -> (result: Result<Mail, CoreError>)
        ensures
            match result {
                Ok(stored) => {
                    &&& stored@ == mail@
                    &&& mail_with(old(self)@, mail.id) is None
                    &&& final(self)@ == old(self)@.push(mail@)
                },
                Err(e) => {
                    &&& mail_with(old(self)@, mail.id) is Some
                    &&& final(self)@ == old(self)@
                    &&& e matches CoreError::Queue(text)
                    &&& text@
                        == "error returned from database: (code: 1555) UNIQUE constraint failed: mails.id"@
                },
            },
            distinct_ids(final(self)@),
    {
        proof {
            use_type_invariant(&*self);
            lemma_place_of(self@, mail.id, 0);
        }
        let ghost before = self@;
        if self.find(mail.id) < self.mails.len() {
            let text =
                "error returned from database: (code: 1555) UNIQUE constraint failed: mails.id";
            return Err(CoreError::Queue(text.to_owned()));
        }
        let stored = mail.clone();
        let mut mails: Vec<Mail> = Vec::new();
        core::mem::swap(&mut mails, &mut self.mails);
        mails.push(stored);
        assert(mail_views(mails@) == before.push(mail@));
        self.mails = mails;
        Ok(mail)
    }

    /// The mail with the identifier `id`.
    pub fn get(&self, id: MailId) -> (result: Result<Mail, CoreError>)
        ensures
            match result {
                Ok(mail) => mail_with(self@, id) == Some(mail@),
                Err(e) => mail_with(self@, id) is None && says_not_found(e, id),
            },
    {
        let i: usize = self.find(id);
        proof {
            lemma_place_of(self@, id, 0);
        }
        if i < self.mails.len() {
            assert(self@[i as int] == self.mails@[i as int]@);
            Ok(self.mails[i].clone())
        } else {
            Err(CoreError::NotFound(write_id(id)))
        }
    }

    /// Up to `limit` of the mails that wait for a delivery, the oldest first.
    pub fn fetch_pending(&self, limit: u32) -> (result: Vec<Mail>)
        ensures
            selects(self@, |m: MailView| is_waiting(m), limit as nat, mail_views(result@)),
    {
        select_pending(&self.mails, limit)
    }

    /// Up to `limit` of the mails that may be delivered at the time `now`, the oldest first.
    pub fn fetch_due(&self, limit: u32, now: Timestamp) -> (result: Vec<Mail>)
        ensures
            selects(self@, |m: MailView| is_due(m, now), limit as nat, mail_views(result@)),
    {
        select_due(&self.mails, limit, now)
    }

    /// Changes the record of the mail with the identifier `id` at the time `now`.
    pub fn update(&mut self, id: MailId, update: QueueUpdate, now: Timestamp) -> (result: Result<
        (),
        CoreError,
    >)
        ensures
            match result {
                Ok(()) => {
                    &&& mail_with(old(self)@, id) is Some
                    &&& final(self)@ == changed(old(self)@, id, update@, now)
                },
                Err(e) => {
                    &&& mail_with(old(self)@, id) is None
                    &&& final(self)@ == old(self)@
                    &&& says_not_found(e, id)
                },
            },
            distinct_ids(final(self)@),
    {
        proof {
            use_type_invariant(&*self);
            lemma_place_of(self@, id, 0);
        }
        let ghost before = self@;
        let i: usize = self.find(id);
        if i >= self.mails.len() {
            return Err(CoreError::NotFound(write_id(id)));
        }
        let mut mails: Vec<Mail> = Vec::new();
        core::mem::swap(&mut mails, &mut self.mails);
        apply_update(&mut mails[i], update, now);
        assert(mail_views(mails@) == changed(before, id, update@, now));
        self.mails = mails;
        Ok(())
    }

    /// Records that an attempt ended in `status`.
    pub fn update_status(
        &mut self,
        id: MailId,
        status: MailStatus,
        last_error: Option<String>,
        now: Timestamp,
    ) -> (result: Result<(), CoreError>)
        ensures
            match result {
                Ok(()) => {
                    &&& mail_with(old(self)@, id) is Some
                    &&& final(self)@ == changed(
                        old(self)@,
                        id,
                        UpdateView::Status { status, last_error: opt_text(last_error) },
                        now,
                    )
                },
                Err(e) => {
                    &&& mail_with(old(self)@, id) is None
                    &&& final(self)@ == old(self)@
                    &&& says_not_found(e, id)
                },
            },
    {
        self.update(id, QueueUpdate::Status { status, last_error }, now)
    }

    /// Gives back every mail that is in delivery. Called once when the relay starts, since no
    /// delivery has outlived the last run. Returns their number.
    pub fn requeue_sending(&mut self, now: Timestamp) -> (count: usize)
        ensures
            final(self)@ == requeued(
                old(self)@,
                |m: MailView| m.status == MailStatus::Sending,
                now,
            ),
            count == count_of(old(self)@, |m: MailView| m.status == MailStatus::Sending),
    {
        self.give_back(now, None)
    }

    /// Gives back every mail that has been in delivery for longer than `lease`. Returns their
    /// number.
    pub fn requeue_stale(&mut self, now: Timestamp, lease: Duration) -> (count: usize)
        ensures
            final(self)@ == requeued(old(self)@, |m: MailView| is_stale(m, now, lease), now),
            count == count_of(old(self)@, |m: MailView| is_stale(m, now, lease)),
    {
        self.give_back(now, Some(lease))
    }

    fn give_back(&mut self, now: Timestamp, lease: Option<Duration>) -> (count: usize)
        ensures
            final(self)@ == requeued(old(self)@, lost_at(now, lease), now),
            count == count_of(old(self)@, lost_at(now, lease)),
    {
        proof {
            use_type_invariant(&*self);
        }
        let ghost before = self@;
        let ghost lost = lost_at(now, lease);
        let mut mails: Vec<Mail> = Vec::new();
        core::mem::swap(&mut mails, &mut self.mails);
        let n: usize = mails.len();
        let mut count: usize = 0;
        let mut i: usize = 0;
        while i < n
            invariant
                i <= n == mails@.len(),
                before.len() == n,
                lost == lost_at(now, lease),
                count <= i,
                count == count_of(before.take(i as int), lost),
                forall|j: int|
                    0 <= j < i ==> #[trigger] mails@[j]@ == requeued(before, lost, now)[j],
                forall|j: int| i <= j < n ==> #[trigger] mails@[j]@ == before[j],
            decreases n - i,
        {
            assert(before.take(i + 1).drop_last() == before.take(i as int));
            assert(before.take(i + 1).last() == mails@[i as int]@);
            let gone = match lease {
                Some(lease) => stale(&mails[i], now, lease),
                None => mails[i].status == MailStatus::Sending,
            };
            if gone {
                apply_update(&mut mails[i], QueueUpdate::Requeue, now);
                count += 1;
            }
            i += 1;
        }
        proof {
            assert(before.take(n as int) == before);
            assert(mail_views(mails@) == requeued(before, lost, now));
            assert forall|a: int, b: int| 0 <= a < b < before.len() implies #[trigger] requeued(
                before,
                lost,
                now,
            )[a].id != #[trigger] requeued(before, lost, now)[b].id by {
                assert(before[a].id != before[b].id);
            }
        }
        self.mails = mails;
        count
    }
}

/// Which mails are given back.
spec fn lost_at(now: Timestamp, lease: Option<Duration>) -> spec_fn(MailView) -> bool {
    match lease {
        Some(lease) => |m: MailView| is_stale(m, now, lease),
        None => |m: MailView| m.status == MailStatus::Sending,
    }
}

/// A mail that was queued can be got by its identifier, and every other mail is got as before.
pub proof fn law_get_after_enqueue(mails: Seq<MailView>, mail: MailView, other: MailId)
    requires
        mail_with(mails, mail.id) is None,
    ensures
        mail_with(mails.push(mail), mail.id) == Some(mail),
        other != mail.id ==> mail_with(mails.push(mail), other) == mail_with(mails, other),
{
    lemma_place_of(mails, mail.id, 0);
    lemma_place_of(mails.push(mail), mail.id, 0);
    lemma_place_of(mails, other, 0);
    lemma_place_of(mails.push(mail), other, 0);
    let i = place_of(mails.push(mail), mail.id, 0);
    if i < mails.len() {
        assert(mails.push(mail)[i] == mails[i]);
        assert(mails[i].id != mail.id);
    }
    assert(mails.push(mail)[mails.len() as int].id == mail.id);
    if other != mail.id {
        let a = place_of(mails, other, 0);
        let b = place_of(mails.push(mail), other, 0);
        if a < mails.len() {
            assert(mails.push(mail)[a] == mails[a]);
        }
        if b < mails.len() {
            assert(mails.push(mail)[b] == mails[b]);
        }
    }
}

/// A change to one mail is what is got of that mail; every other mail is got as before.
pub proof fn law_update_changes_one_mail(
    mails: Seq<MailView>,
    id: MailId,
    update: UpdateView,
    now: Timestamp,
    other: MailId,
)
    requires
        mail_with(mails, id) is Some,
    ensures
        mail_with(changed(mails, id, update, now), id) == Some(
            updated(mail_with(mails, id)->0, update, now),
        ),
        other != id ==> mail_with(changed(mails, id, update, now), other) == mail_with(
            mails,
            other,
        ),
{
    let after = changed(mails, id, update, now);
    lemma_place_of(mails, id, 0);
    let i = place_of(mails, id, 0);
    assert(after.len() == mails.len());
    assert forall|j: int| 0 <= j < mails.len() implies #[trigger] after[j].id == mails[j].id by {}
    lemma_same_places(mails, after, id, 0);
    lemma_same_places(mails, after, other, 0);
    lemma_place_of(mails, other, 0);
}

/// Every mail in the queue can be got by its identifier, and what is got by an identifier is a
/// mail in the queue.
pub proof fn law_every_mail_is_got(mails: Seq<MailView>, i: int, id: MailId)
    requires
        distinct_ids(mails),
        0 <= i < mails.len(),
    ensures
        mail_with(mails, mails[i].id) == Some(mails[i]),
        mail_with(mails, id) matches Some(mail) ==> mail.id == id && mails.contains(mail),
{
    lemma_place_of(mails, id, 0);
    lemma_place_of(mails, mails[i].id, 0);
    let p = place_of(mails, mails[i].id, 0);
    if p < i {
        assert(mails[p].id != mails[i].id);
    }
}

/// A change keeps the number of mails, their places and their identifiers.
pub proof fn law_update_keeps_ids(
    mails: Seq<MailView>,
    id: MailId,
    update: UpdateView,
    now: Timestamp,
)
    requires
        distinct_ids(mails),
        mail_with(mails, id) is Some,
    ensures
        changed(mails, id, update, now).len() == mails.len(),
        distinct_ids(changed(mails, id, update, now)),
        forall|i: int|
            0 <= i < mails.len() ==> (#[trigger] changed(mails, id, update, now)[i]).id
                == mails[i].id,
{
    let after = changed(mails, id, update, now);
    lemma_place_of(mails, id, 0);
    assert forall|i: int| 0 <= i < mails.len() implies (#[trigger] after[i]).id == mails[i].id by {}
    assert forall|i: int, j: int| 0 <= i < j < after.len() implies #[trigger] after[i].id
        != #[trigger] after[j].id by {
        assert(mails[i].id != mails[j].id);
    }
}

/// The search for an identifier goes by the identifiers alone.
proof fn lemma_same_places(a: Seq<MailView>, b: Seq<MailView>, id: MailId, from: int)
    requires
        a.len() == b.len(),
        0 <= from <= a.len(),
        forall|j: int| 0 <= j < a.len() ==> #[trigger] b[j].id == a[j].id,
    ensures
        place_of(a, id, from) == place_of(b, id, from),
    decreases a.len() - from,
{
    if from < a.len() {
        assert(b[from].id == a[from].id);
        lemma_same_places(a, b, id, from + 1);
    }
}

/// A mail that was taken up, delivered or buried is never due; one that failed is due from its
/// next attempt on; one that was given back is due again as it was before it was taken up.
pub proof fn law_due_after_update(mail: MailView, update: UpdateView, now: Timestamp, t: Timestamp)
    ensures
        update is Sending || update is Sent || update is Dead ==> !is_due(
            updated(mail, update, now),
            t,
        ),
        update matches UpdateView::Failed { retry_at, .. } ==> (is_due(
            updated(mail, update, now),
            t,
        ) <==> !t.precedes(retry_at)),
        is_waiting(mail) ==> (is_due(
            updated(updated(mail, UpdateView::Sending, now), UpdateView::Requeue, now),
            t,
        ) <==> is_due(mail, t)),
{
}

/// What a delivery ends in counts as one attempt; taking a mail up and giving it back count as
/// none. No change touches what the mail says or when it was created.
pub proof fn law_update_keeps_content(mail: MailView, update: UpdateView, now: Timestamp)
    ensures
        updated(mail, update, now).attempts == (if update is Sending || update is Requeue {
            mail.attempts
        } else {
            one_more(mail.attempts)
        }),
        updated(mail, update, now).id == mail.id,
        updated(mail, update, now).from == mail.from,
        updated(mail, update, now).to == mail.to,
        updated(mail, update, now).subject == mail.subject,
        updated(mail, update, now).body == mail.body,
        updated(mail, update, now).transport == mail.transport,
        updated(mail, update, now).created_at == mail.created_at,
        updated(mail, update, now).updated_at == now,
{
}

/// A mail that was taken up is not handed out again, whenever the queue is asked.
pub proof fn law_claimed_mail_is_not_fetched(
    mails: Seq<MailView>,
    id: MailId,
    now: Timestamp,
    t: Timestamp,
    limit: nat,
    result: Seq<MailView>,
    k: int,
)
    requires
        distinct_ids(mails),
        mail_with(mails, id) is Some,
        selects(
            changed(mails, id, UpdateView::Sending, now),
            |m: MailView| is_due(m, t),
            limit,
            result,
        ),
        0 <= k < result.len(),
    ensures
        result[k].id != id,
{
    let after = changed(mails, id, UpdateView::Sending, now);
    lemma_place_of(mails, id, 0);
    let i = place_of(mails, id, 0);
    let chosen = choose|chosen: Seq<int>|
        #![trigger chosen.len()]
        is_selection(after, |m: MailView| is_due(m, t), limit, chosen) && result
            == chosen.map_values(|i: int| after[i]);
    assert(result[k] == after[chosen[k]]);
    if chosen[k] == i {
        assert(after[i].status == MailStatus::Sending);
    } else if chosen[k] < i {
        assert(mails[chosen[k]].id != mails[i].id);
    } else {
        assert(mails[i].id != mails[chosen[k]].id);
    }
}

/// Once the mails in delivery were given back none is in delivery, and the others are as
/// before.
pub proof fn law_recovery(mails: Seq<MailView>, now: Timestamp, i: int)
    requires
        0 <= i < mails.len(),
    ensures
        ({
            let after = requeued(mails, |m: MailView| m.status == MailStatus::Sending, now);
            &&& after.len() == mails.len()
            &&& after[i].status != MailStatus::Sending
            &&& mails[i].status != MailStatus::Sending ==> after[i] == mails[i]
            &&& mails[i].status == MailStatus::Sending ==> after[i] == updated(
                mails[i],
                UpdateView::Requeue,
                now,
            )
        }),
{
}

/// Changes to two mails can be made in either order, so deliveries may end in any order.
pub proof fn law_updates_commute(
    mails: Seq<MailView>,
    a: MailId,
    first: UpdateView,
    at_first: Timestamp,
    b: MailId,
    second: UpdateView,
    at_second: Timestamp,
)
    requires
        a != b,
        mail_with(mails, a) is Some,
        mail_with(mails, b) is Some,
    ensures
        changed(changed(mails, a, first, at_first), b, second, at_second) == changed(
            changed(mails, b, second, at_second),
            a,
            first,
            at_first,
        ),
{
    lemma_place_of(mails, a, 0);
    lemma_place_of(mails, b, 0);
    let x = changed(mails, a, first, at_first);
    let y = changed(mails, b, second, at_second);
    assert forall|j: int| 0 <= j < mails.len() implies #[trigger] x[j].id == mails[j].id by {}
    assert forall|j: int| 0 <= j < mails.len() implies #[trigger] y[j].id == mails[j].id by {}
    lemma_same_places(mails, x, b, 0);
    lemma_same_places(mails, y, a, 0);
    assert(changed(x, b, second, at_second) =~= changed(y, a, first, at_first));
}

/// A new mail may be delivered as soon as it is queued.
pub proof fn law_new_mail_is_due(new: NewMailView, now: Timestamp, id: MailId, t: Timestamp)
    ensures
        is_due(queued(new, now, id), t) <==> !t.precedes(now),
{
}

/// A mail that has been in delivery for too long is, once it was given back, due again when its
/// last attempt was, with no attempt counted.
pub proof fn law_stale_mail_is_due_again(
    mail: MailView,
    now: Timestamp,
    lease: Duration,
    t: Timestamp,
)
    requires
        is_stale(mail, now, lease),
    ensures
        ({
            let after = requeued(seq![mail], |m: MailView| is_stale(m, now, lease), now)[0];
            &&& is_due(after, t) <==> !t.precedes(mail.next_attempt_at)
            &&& after.attempts == mail.attempts
        }),
{
}

/// A selection holds mails that are wanted and no others, none of them twice, and no more than
/// the limit. A mail that is wanted is left out only where the limit is reached.
pub proof fn law_selection_holds_what_is_wanted(
    mails: Seq<MailView>,
    wanted: spec_fn(MailView) -> bool,
    limit: nat,
    result: Seq<MailView>,
)
    requires
        distinct_ids(mails),
        selects(mails, wanted, limit, result),
    ensures
        result.len() <= limit,
        forall|k: int|
            0 <= k < result.len() ==> mails.contains(#[trigger] result[k]) && wanted(result[k]),
        forall|k: int, l: int|
            0 <= k < l < result.len() ==> (#[trigger] result[k]).id != (#[trigger] result[l]).id,
        forall|i: int|
            0 <= i < mails.len() && wanted(#[trigger] mails[i]) && !result.contains(mails[i])
                ==> result.len() == limit,
{
    let chosen = choose|chosen: Seq<int>|
        #![trigger chosen.len()]
        is_selection(mails, wanted, limit, chosen) && result == chosen.map_values(
            |i: int| mails[i],
        );
    assert forall|k: int| 0 <= k < result.len() implies mails.contains(#[trigger] result[k])
        && wanted(result[k]) by {
        assert(result[k] == mails[chosen[k]]);
    }
    assert forall|k: int, l: int| 0 <= k < l < result.len() implies (#[trigger] result[k]).id != (
    #[trigger] result[l]).id by {
        assert(comes_before(mails, chosen[k], chosen[l]));
        assert(result[k] == mails[chosen[k]] && result[l] == mails[chosen[l]]);
        if chosen[k] < chosen[l] {
            assert(mails[chosen[k]].id != mails[chosen[l]].id);
        } else {
            assert(mails[chosen[l]].id != mails[chosen[k]].id);
        }
    }
    assert forall|i: int|
        0 <= i < mails.len() && wanted(#[trigger] mails[i]) && !result.contains(
            mails[i],
        ) implies result.len() == limit by {
        if chosen.contains(i) {
            let k = choose|k: int| 0 <= k < chosen.len() && chosen[k] == i;
            assert(result[k] == mails[i]);
        }
    }
}

/// The oldest mails are handed out first: of two mails that are wanted, where the first was
/// created before the second, a selection that holds the second holds the first at an earlier
/// place.
pub proof fn law_older_mail_is_handed_out_first(
    mails: Seq<MailView>,
    wanted: spec_fn(MailView) -> bool,
    limit: nat,
    result: Seq<MailView>,
    i: int,
    l: int,
)
    requires
        selects(mails, wanted, limit, result),
        0 <= i < mails.len(),
        wanted(mails[i]),
        0 <= l < result.len(),
        mails[i].created_at.secs() < result[l].created_at.secs() || (mails[i].created_at.secs()
            == result[l].created_at.secs() && mails[i].created_at.nanos()
            < result[l].created_at.nanos()),
    ensures
        exists|k: int| 0 <= k < l && #[trigger] result[k] == mails[i],
{
    let chosen = choose|chosen: Seq<int>|
        #![trigger chosen.len()]
        is_selection(mails, wanted, limit, chosen) && result == chosen.map_values(
            |i: int| mails[i],
        );
    let j = chosen[l];
    assert(result[l] == mails[j]);
    if !chosen.contains(i) {
        let last = chosen.len() - 1;
        assert(comes_before(mails, chosen[last], i));
        if l < last {
            assert(comes_before(mails, chosen[l], chosen[last]));
        }
    }
    let k = choose|k: int| 0 <= k < chosen.len() && chosen[k] == i;
    assert(result[k] == mails[i]);
    if k > l {
        assert(comes_before(mails, chosen[l], chosen[k]));
    }
}

/// Mails that were created at the same time are handed out in the order in which they were
/// queued.
pub proof fn law_same_time_keeps_queue_order(
    mails: Seq<MailView>,
    wanted: spec_fn(MailView) -> bool,
    limit: nat,
    result: Seq<MailView>,
    i: int,
    j: int,
)
    requires
        distinct_ids(mails),
        selects(mails, wanted, limit, result),
        0 <= i < j < mails.len(),
        wanted(mails[i]),
        mails[i].created_at.secs() == mails[j].created_at.secs(),
        mails[i].created_at.nanos() == mails[j].created_at.nanos(),
        result.contains(mails[j]),
    ensures
        exists|k: int, l: int|
            0 <= k < l < result.len() && #[trigger] result[k] == mails[i] && #[trigger] result[l]
                == mails[j],
{
    let chosen = choose|chosen: Seq<int>|
        #![trigger chosen.len()]
        is_selection(mails, wanted, limit, chosen) && result == chosen.map_values(
            |i: int| mails[i],
        );
    let l = choose|l: int| 0 <= l < result.len() && result[l] == mails[j];
    assert(mails[chosen[l]].id == mails[j].id);
    assert(chosen[l] == j) by {
        if chosen[l] < j {
            assert(mails[chosen[l]].id != mails[j].id);
        } else if j < chosen[l] {
            assert(mails[j].id != mails[chosen[l]].id);
        }
    }
    if !chosen.contains(i) {
        let last = chosen.len() - 1;
        assert(comes_before(mails, chosen[last], i));
        if l < last {
            assert(comes_before(mails, chosen[l], chosen[last]));
        }
    }
    let k = choose|k: int| 0 <= k < chosen.len() && chosen[k] == i;
    if k > l {
        assert(comes_before(mails, chosen[l], chosen[k]));
    }
    assert(result[k] == mails[i] && result[l] == mails[j]);
}

/// A mail waits for a delivery where it is new or its last attempt failed, and is due from its
/// next attempt on.
pub proof fn law_when_a_mail_is_due(mail: MailView, now: Timestamp)
    ensures
        is_waiting(mail) <==> mail.status is Pending || mail.status is Failed,
        is_due(mail, now) <==> {
            &&& mail.status is Pending || mail.status is Failed
            &&& {
                ||| mail.next_attempt_at.secs() < now.secs()
                ||| mail.next_attempt_at.secs() == now.secs() && mail.next_attempt_at.nanos()
                    <= now.nanos()
            }
        },
{
}

/// A mail has been in delivery for too long once more time than the lease has passed since it
/// was taken up.
pub proof fn law_when_a_mail_is_stale(mail: MailView, now: Timestamp, lease: Duration)
    ensures
        is_stale(mail, now, lease) <==> {
            &&& mail.status is Sending
            &&& (now.secs() - mail.updated_at.secs()) * 1_000_000_000 + (now.nanos()
                - mail.updated_at.nanos()) > lease.length()
        },
{
}

/// What each change makes of a mail: its state, what went wrong last, and when it may be
/// attempted again.
pub proof fn law_what_an_update_records(mail: MailView, update: UpdateView, now: Timestamp)
    ensures
        ({
            let after = updated(mail, update, now);
            match update {
                UpdateView::Status { status, last_error } => {
                    &&& after.status == status
                    &&& after.last_error == last_error
                    &&& after.next_attempt_at == mail.next_attempt_at
                },
                UpdateView::Sending => {
                    &&& after.status is Sending
                    &&& after.last_error == mail.last_error
                    &&& after.next_attempt_at == mail.next_attempt_at
                },
                UpdateView::Sent => {
                    &&& after.status is Sent
                    &&& after.last_error is None
                    &&& after.next_attempt_at == mail.next_attempt_at
                },
                UpdateView::Failed { error, retry_at } => {
                    &&& after.status is Failed
                    &&& after.last_error == Some(error)
                    &&& after.next_attempt_at == retry_at
                },
                UpdateView::Dead { error } => {
                    &&& after.status is Dead
                    &&& after.last_error == Some(error)
                    &&& after.next_attempt_at == mail.next_attempt_at
                },
                UpdateView::Requeue => {
                    &&& after.status is Pending
                    &&& after.last_error == mail.last_error
                    &&& after.next_attempt_at == mail.next_attempt_at
                },
            }
        }),
        mail.attempts < u32::MAX && !(update is Sending) && !(update is Requeue) ==> updated(
            mail,
            update,
            now,
        ).attempts == mail.attempts + 1,
        update is Sending || update is Requeue ==> updated(mail, update, now).attempts
            == mail.attempts,
{
}

/// Giving mails back changes those that were lost and no others: they are pending again, with
/// nothing else changed but the time of the change.
pub proof fn law_lost_mails_are_given_back(
    mails: Seq<MailView>,
    lost: spec_fn(MailView) -> bool,
    now: Timestamp,
)
    ensures
        requeued(mails, lost, now).len() == mails.len(),
        forall|i: int|
            0 <= i < mails.len() && !lost(mails[i]) ==> #[trigger] requeued(mails, lost, now)[i]
                == mails[i],
        forall|i: int|
            0 <= i < mails.len() && lost(mails[i]) ==> #[trigger] requeued(mails, lost, now)[i]
                == (MailView { status: MailStatus::Pending, updated_at: now, ..mails[i] }),
{
}

/// The count of the mails given back is that of the mails that were lost.
pub proof fn law_count_is_that_of_the_lost(mails: Seq<MailView>, lost: spec_fn(MailView) -> bool)
    ensures
        count_of(mails, lost) == mails.filter(lost).len(),
    decreases mails.len(),
{
    reveal(Seq::filter);
    if mails.len() > 0 {
        law_count_is_that_of_the_lost(mails.drop_last(), lost);
    }
}

/// The mails that the queue hands out for delivery are due, no more than the limit and none twice;
/// a mail that is due is left out only where the limit is reached.
pub proof fn law_due_mails_are_handed_out(
    queue: &MailQueue,
    limit: u32,
    now: Timestamp,
    result: Vec<Mail>,
)
    requires
        call_ensures(MailQueue::fetch_due, (queue, limit, now), result),
        distinct_ids(queue@),
    ensures
        result@.len() <= limit,
        forall|k: int|
            0 <= k < result@.len() ==> {
                let mail = (#[trigger] result@[k])@;
                &&& queue@.contains(mail)
                &&& mail.status is Pending || mail.status is Failed
                &&& mail.next_attempt_at.secs() < now.secs() || (mail.next_attempt_at.secs()
                    == now.secs() && mail.next_attempt_at.nanos() <= now.nanos())
            },
        forall|k: int, l: int|
            0 <= k < l < result@.len() ==> (#[trigger] result@[k]).id != (#[trigger] result@[l]).id,
        forall|i: int|
            {
                &&& 0 <= i < queue@.len()
                &&& (#[trigger] queue@[i]).status is Pending || queue@[i].status is Failed
                &&& queue@[i].next_attempt_at.secs() < now.secs() || (
                queue@[i].next_attempt_at.secs() == now.secs() && queue@[i].next_attempt_at.nanos()
                    <= now.nanos())
            } ==> result@.len() == limit || exists|k: int|
                0 <= k < result@.len() && (#[trigger] result@[k])@ == queue@[i],
{
    let views = mail_views(result@);
    let wanted = |m: MailView| is_due(m, now);
    law_selection_holds_what_is_wanted(queue@, wanted, limit as nat, views);
    lemma_handed_out(queue@, result@, limit as nat, wanted);
}

/// The mails that the queue hands out as waiting are new or failed, no more than the limit and
/// none twice; a mail that waits is left out only where the limit is reached.
pub proof fn law_waiting_mails_are_handed_out(queue: &MailQueue, limit: u32, result: Vec<Mail>)
    requires
        call_ensures(MailQueue::fetch_pending, (queue, limit), result),
        distinct_ids(queue@),
    ensures
        result@.len() <= limit,
        forall|k: int|
            0 <= k < result@.len() ==> {
                let mail = (#[trigger] result@[k])@;
                &&& queue@.contains(mail)
                &&& mail.status is Pending || mail.status is Failed
            },
        forall|k: int, l: int|
            0 <= k < l < result@.len() ==> (#[trigger] result@[k]).id != (#[trigger] result@[l]).id,
        forall|i: int|
            0 <= i < queue@.len() && ((#[trigger] queue@[i]).status is Pending || queue@[i].status
                is Failed) ==> result@.len() == limit || exists|k: int|
                0 <= k < result@.len() && (#[trigger] result@[k])@ == queue@[i],
{
    let views = mail_views(result@);
    let wanted = |m: MailView| is_waiting(m);
    law_selection_holds_what_is_wanted(queue@, wanted, limit as nat, views);
    lemma_handed_out(queue@, result@, limit as nat, wanted);
}

/// What holds of the views of a selection, said of its mails.
proof fn lemma_handed_out(
    mails: Seq<MailView>,
    result: Seq<Mail>,
    limit: nat,
    wanted: spec_fn(MailView) -> bool,
)
    requires
        distinct_ids(mails),
        selects(mails, wanted, limit, mail_views(result)),
    ensures
        forall|k: int|
            0 <= k < result.len() ==> mails.contains((#[trigger] result[k])@) && wanted(result[k]@),
        forall|k: int, l: int|
            0 <= k < l < result.len() ==> (#[trigger] result[k]).id != (#[trigger] result[l]).id,
        forall|i: int|
            0 <= i < mails.len() && wanted(#[trigger] mails[i]) ==> result.len() == limit
                || exists|k: int| 0 <= k < result.len() && (#[trigger] result[k])@ == mails[i],
{
    let views = mail_views(result);
    law_selection_holds_what_is_wanted(mails, wanted, limit, views);
    assert forall|k: int| 0 <= k < result.len() implies mails.contains((#[trigger] result[k])@)
        && wanted(result[k]@) by {
        assert(views[k] == result[k]@);
    }
    assert forall|k: int, l: int| 0 <= k < l < result.len() implies (#[trigger] result[k]).id != (
    #[trigger] result[l]).id by {
        assert(views[k].id != views[l].id);
    }
    assert forall|i: int| 0 <= i < mails.len() && wanted(#[trigger] mails[i]) implies result.len()
        == limit || exists|k: int| 0 <= k < result.len() && (#[trigger] result[k])@ == mails[i] by {
        if views.contains(mails[i]) {
            let k = choose|k: int| 0 <= k < views.len() && views[k] == mails[i];
            assert(result[k]@ == mails[i]);
        }
    }
}

/// The queue hands out the oldest mails first: where it hands out a mail, it has handed out every
/// mail before it that was created earlier and is due, or waits where no time is asked for.
pub proof fn law_queue_hands_out_the_oldest_first(
    queue: &MailQueue,
    limit: u32,
    now: Timestamp,
    due: Vec<Mail>,
    waiting: Vec<Mail>,
    i: int,
    l: int,
)
    requires
        call_ensures(MailQueue::fetch_due, (queue, limit, now), due),
        call_ensures(MailQueue::fetch_pending, (queue, limit), waiting),
        0 <= i < queue@.len(),
        queue@[i].status is Pending || queue@[i].status is Failed,
    ensures
        ({
            &&& queue@[i].next_attempt_at.secs() < now.secs() || (queue@[i].next_attempt_at.secs()
                == now.secs() && queue@[i].next_attempt_at.nanos() <= now.nanos())
            &&& 0 <= l < due@.len()
            &&& queue@[i].created_at.secs() < due@[l].created_at.secs() || (
            queue@[i].created_at.secs() == due@[l].created_at.secs() && queue@[i].created_at.nanos()
                < due@[l].created_at.nanos())
        }) ==> exists|k: int| 0 <= k < l && (#[trigger] due@[k])@ == queue@[i],
        ({
            &&& 0 <= l < waiting@.len()
            &&& queue@[i].created_at.secs() < waiting@[l].created_at.secs() || (
            queue@[i].created_at.secs() == waiting@[l].created_at.secs()
                && queue@[i].created_at.nanos() < waiting@[l].created_at.nanos())
        }) ==> exists|k: int| 0 <= k < l && (#[trigger] waiting@[k])@ == queue@[i],
{
    let views = mail_views(due@);
    let all = mail_views(waiting@);
    if 0 <= l < due@.len() && is_due(queue@[i], now) && queue@[i].created_at.precedes(
        due@[l].created_at,
    ) {
        assert(views[l] == due@[l]@);
        law_older_mail_is_handed_out_first(
            queue@,
            |m: MailView| is_due(m, now),
            limit as nat,
            views,
            i,
            l,
        );
        let k = choose|k: int| 0 <= k < l && #[trigger] views[k] == queue@[i];
        assert(due@[k]@ == queue@[i]);
    }
    if 0 <= l < waiting@.len() && queue@[i].created_at.precedes(waiting@[l].created_at) {
        assert(all[l] == waiting@[l]@);
        law_older_mail_is_handed_out_first(
            queue@,
            |m: MailView| is_waiting(m),
            limit as nat,
            all,
            i,
            l,
        );
        let k = choose|k: int| 0 <= k < l && #[trigger] all[k] == queue@[i];
        assert(waiting@[k]@ == queue@[i]);
    }
}

/// A mail that is got from the queue is the one with that identifier; it is not found only where
/// no mail has the identifier.
pub proof fn law_get_finds_the_mail(
    queue: &MailQueue,
    id: MailId,
    result: Result<Mail, CoreError>,
)
    requires
        call_ensures(MailQueue::get, (queue, id), result),
    ensures
        match result {
            Ok(mail) => mail.id == id && queue@.contains(mail@),
            Err(e) => e is NotFound && forall|i: int|
                0 <= i < queue@.len() ==> (#[trigger] queue@[i]).id != id,
        },
{
    lemma_place_of(queue@, id, 0);
}

/// An error that a mail is not there names the identifier that was asked for.
pub proof fn law_not_found_names_the_identifier(e: CoreError, id: MailId)
    requires
        says_not_found(e, id),
    ensures
        e matches CoreError::NotFound(text) && text@ == id_text(id),
{
}

/// Two mails of a queue never have the same identifier.
pub proof fn law_identifiers_are_distinct(mails: Seq<MailView>, i: int, j: int)
    requires
        distinct_ids(mails),
        0 <= i < mails.len(),
        0 <= j < mails.len(),
        mails[i].id == mails[j].id,
    ensures
        i == j,
{
    if i < j {
        assert(mails[i].id != mails[j].id);
    } else if j < i {
        assert(mails[j].id != mails[i].id);
    }
}

/// The view of a list of mails holds every mail, and that of a change what is changed.
pub proof fn law_views_of_mails_and_changes(list: Seq<Mail>, update: QueueUpdate)
    ensures
        mail_views(list).len() == list.len(),
        forall|i: int| 0 <= i < list.len() ==> #[trigger] mail_views(list)[i] == list[i]@,
        match update {
            QueueUpdate::Status { status, last_error } => update@ matches UpdateView::Status {
                status: state,
                last_error: error,
            } && state == status && (last_error is None <==> error is None) && (
            last_error matches Some(text) ==> error == Some(text@)),
            QueueUpdate::Sending => update@ is Sending,
            QueueUpdate::Sent => update@ is Sent,
            QueueUpdate::Failed { error, retry_at } => update@ == (UpdateView::Failed {
                error: error@,
                retry_at,
            }),
            QueueUpdate::Dead { error } => update@ == (UpdateView::Dead { error: error@ }),
            QueueUpdate::Requeue => update@ is Requeue,
        },
{
}

/// A mail that is queued stands behind all others, which stay as they are; it is refused exactly
/// when its identifier is in the queue, which then stays as it is.
pub proof fn law_enqueue_adds_at_the_end(mail: Mail, result: Result<Mail, CoreError>)
    ensures
        forall|queue: &mut MailQueue| #[trigger]
            call_ensures(MailQueue::enqueue, (queue, mail), result) ==> {
                &&& result is Err <==> exists|i: int|
                    0 <= i < (*queue)@.len() && (#[trigger] (*queue)@[i]).id == mail.id
                &&& result is Err ==> final(queue)@ == (*queue)@
                &&& result matches Ok(stored) ==> {
                    &&& stored@ == mail@
                    &&& final(queue)@.len() == (*queue)@.len() + 1
                    &&& final(queue)@.last() == mail@
                    &&& forall|i: int|
                        0 <= i < (*queue)@.len() ==> #[trigger] final(queue)@[i] == (*queue)@[i]
                }
            },
{
    assert forall|queue: &mut MailQueue| #[trigger]
        call_ensures(MailQueue::enqueue, (queue, mail), result) implies (result is Err
        <==> exists|i: int| 0 <= i < (*queue)@.len() && (#[trigger] (*queue)@[i]).id == mail.id) by {
        lemma_place_of((*queue)@, mail.id, 0);
    }
}

/// A change goes to the mail with the identifier and to no other, and is refused exactly when no
/// mail has it.
pub proof fn law_update_goes_to_one_mail(
    id: MailId,
    update: QueueUpdate,
    now: Timestamp,
    result: Result<(), CoreError>,
)
    ensures
        forall|queue: &mut MailQueue| #[trigger]
            call_ensures(MailQueue::update, (queue, id, update, now), result) && distinct_ids(
                (*queue)@,
            ) ==> {
                &&& result is Ok <==> exists|i: int|
                    0 <= i < (*queue)@.len() && (#[trigger] (*queue)@[i]).id == id
                &&& final(queue)@.len() == (*queue)@.len()
                &&& forall|i: int|
                    0 <= i < (*queue)@.len() ==> #[trigger] final(queue)@[i] == (
                    if (*queue)@[i].id == id {
                        updated((*queue)@[i], update@, now)
                    } else {
                        (*queue)@[i]
                    })
            },
{
    assert forall|queue: &mut MailQueue| #[trigger]
        call_ensures(MailQueue::update, (queue, id, update, now), result) && distinct_ids(
            (*queue)@,
        ) implies {
        &&& result is Ok <==> exists|i: int|
            0 <= i < (*queue)@.len() && (#[trigger] (*queue)@[i]).id == id
        &&& final(queue)@.len() == (*queue)@.len()
        &&& forall|i: int|
            0 <= i < (*queue)@.len() ==> #[trigger] final(queue)@[i] == (if (*queue)@[i].id == id {
                updated((*queue)@[i], update@, now)
            } else {
                (*queue)@[i]
            })
    } by {
        let mails = (*queue)@;
        lemma_place_of(mails, id, 0);
        let p = place_of(mails, id, 0);
        assert forall|i: int| 0 <= i < mails.len() implies #[trigger] final(queue)@[i] == (
        if mails[i].id == id {
            updated(mails[i], update@, now)
        } else {
            mails[i]
        }) by {
            if mails[i].id == id {
                law_identifiers_are_distinct(mails, i, p);
            }
        }
    }
}

/// When the relay starts every mail in delivery is given back, and while it runs every mail that
/// has been in delivery for too long; the others stay as they are, and the count is that of the
/// mails given back.
pub proof fn law_lost_deliveries_are_recovered(now: Timestamp, lease: Duration, count: usize)
    ensures
        forall|queue: &mut MailQueue| #[trigger]
            call_ensures(MailQueue::requeue_sending, (queue, now), count) ==> {
                &&& final(queue)@.len() == (*queue)@.len()
                &&& forall|i: int|
                    0 <= i < (*queue)@.len() ==> #[trigger] final(queue)@[i] == (
                    if (*queue)@[i].status is Sending {
                        MailView {
                            status: MailStatus::Pending,
                            updated_at: now,
                            ..(*queue)@[i]
                        }
                    } else {
                        (*queue)@[i]
                    })
                &&& count == (*queue)@.filter(
                    |m: MailView| m.status == MailStatus::Sending,
                ).len()
            },
        forall|queue: &mut MailQueue| #[trigger]
            call_ensures(MailQueue::requeue_stale, (queue, now, lease), count) ==> {
                &&& final(queue)@.len() == (*queue)@.len()
                &&& forall|i: int|
                    0 <= i < (*queue)@.len() ==> #[trigger] final(queue)@[i] == (if is_stale(
                        (*queue)@[i],
                        now,
                        lease,
                    ) {
                        MailView {
                            status: MailStatus::Pending,
                            updated_at: now,
                            ..(*queue)@[i]
                        }
                    } else {
                        (*queue)@[i]
                    })
                &&& count == (*queue)@.filter(|m: MailView| is_stale(m, now, lease)).len()
            },
{
    assert forall|queue: &mut MailQueue| #[trigger]
        call_ensures(MailQueue::requeue_sending, (queue, now), count) implies count
        == (*queue)@.filter(|m: MailView| m.status == MailStatus::Sending).len() by {
        law_count_is_that_of_the_lost(
            (*queue)@,
            |m: MailView| m.status == MailStatus::Sending,
        );
    }
    assert forall|queue: &mut MailQueue| #[trigger]
        call_ensures(MailQueue::requeue_stale, (queue, now, lease), count) implies count
        == (*queue)@.filter(|m: MailView| is_stale(m, now, lease)).len() by {
        law_count_is_that_of_the_lost((*queue)@, |m: MailView| is_stale(m, now, lease));
    }
}

} // verus!
