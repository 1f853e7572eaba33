//! Mail messages and their delivery state.

use vstd::prelude::*;

use crate::error::CoreError;
use crate::id::MailId;
use crate::text::trim;
use crate::time::Timestamp;

verus! {

use crate::text::{is_white_space, law_blank_text_is_trimmed_away, opt_text, trimmed};

/// A mail address with an optional display name.
#[derive(Debug, PartialEq, Eq)]
pub struct Address {
    /// The address itself.
    pub email: String,
    /// Human readable display name.
    pub name: Option<String>,
}

/// What an [`Address`] stands for.
pub struct AddressView {
    pub email: Seq<char>,
    pub name: Option<Seq<char>>,
}

impl View for Address {
    type V = AddressView;

    open spec fn view(&self) -> AddressView {
        AddressView { email: self.email@, name: opt_text(self.name) }
    }
}

/// What a list of addresses stands for.
pub open spec fn addresses(list: Seq<Address>) -> Seq<AddressView> {
    list.map_values(|a: Address| a@)
}

impl Address {
    /// The address `email` without a display name.
    pub fn new(email: String) -> (a: Self)
        ensures
            a@ == (AddressView { email: email@, name: None }),
    {
        Address { email, name: None }
    }
}

impl Clone for Address {
    fn clone(&self) -> (copy: Self)
        ensures
            copy@ == self@,
    {
        Address { email: self.email.clone(), name: crate::text::copy_opt(&self.name) }
    }
}

/// A copy of a list of addresses.
pub fn copy_addresses(list: &Vec<Address>) -> (copy: Vec<Address>)
    ensures
        addresses(copy@) == addresses(list@),
{
    let mut copy: Vec<Address> = Vec::new();
    let mut i: usize = 0;
    while i < list.len()
        invariant
            i <= list@.len(),
            addresses(copy@) == addresses(list@).take(i as int),
        decreases list@.len() - i,
    {
        copy.push(list[i].clone());
        assert(addresses(copy@) == addresses(list@).take(i as int).push(list@[i as int]@));
        assert(addresses(list@).take(i + 1) == addresses(list@).take(i as int).push(
            addresses(list@)[i as int],
        ));
        i += 1;
    }
    assert(addresses(list@).take(list@.len() as int) == addresses(list@));
    copy
}

/// Delivery state of a mail in the queue.
#[derive(Debug, Clone, Copy, PartialEq, Eq, Structural)]
pub enum MailStatus {
    /// Waiting to be sent.
    Pending,
    /// Being delivered by a transport.
    Sending,
    /// Delivered.
    Sent,
    /// Delivery failed but may be retried.
    Failed,
    /// Failed for good.
    Dead,
}

/// What is handed in to be queued.
#[derive(Debug)]
pub struct NewMail {
    /// Sender.
    pub from: Address,
    /// Recipients.
    pub to: Vec<Address>,
    /// Subject.
    pub subject: String,
    /// Plain text body.
    pub body: String,
    /// Transport to use; the default one where there is none.
    pub transport: Option<String>,
}

/// What a [`NewMail`] stands for.
pub struct NewMailView {
    pub from: AddressView,
    pub to: Seq<AddressView>,
    pub subject: Seq<char>,
    pub body: Seq<char>,
    pub transport: Option<Seq<char>>,
}

impl View for NewMail {
    type V = NewMailView;

    open spec fn view(&self) -> NewMailView {
        NewMailView {
            from: self.from@,
            to: addresses(self.to@),
            subject: self.subject@,
            body: self.body@,
            transport: opt_text(self.transport),
        }
    }
}

impl NewMailView {
    /// What is wrong with the mail: the first of the checks that fails.
    pub open spec fn problem(self) -> Option<Seq<char>> {
        if trimmed(self.from.email).len() == 0 {
            Some("sender address is empty"@)
        } else if self.to.len() == 0 {
            Some("no recipients given"@)
        } else if trimmed(self.subject).len() == 0 {
            Some("subject is empty"@)
        } else {
            None
        }
    }
}

impl NewMail {
    /// Checks the mail before it is queued.
    pub fn validate(&self) -> (result: Result<(), CoreError>)
        ensures
            match result {
                Ok(()) => self@.problem() is None,
                Err(e) => self@.problem() matches Some(detail) && e.text() == "invalid mail: "@
                    + detail && e is InvalidMail,
            },
    {
        if trim(self.from.email.as_str()).as_str().is_empty() {
            return Err(CoreError::InvalidMail("sender address is empty".to_owned()));
        }
        if self.to.is_empty() {
            return Err(CoreError::InvalidMail("no recipients given".to_owned()));
        }
        if trim(self.subject.as_str()).as_str().is_empty() {
            return Err(CoreError::InvalidMail("subject is empty".to_owned()));
        }
        Ok(())
    }
}

impl Clone for NewMail {
    fn clone(&self) -> (copy: Self)
        ensures
            copy@ == self@,
    {
        NewMail {
            from: self.from.clone(),
            to: copy_addresses(&self.to),
            subject: self.subject.clone(),
            body: self.body.clone(),
            transport: crate::text::copy_opt(&self.transport),
        }
    }
}

/// A mail as it stands in the queue.
#[derive(Debug)]
pub struct Mail {
    /// Identifier.
    pub id: MailId,
    /// Sender.
    pub from: Address,
    /// Recipients.
    pub to: Vec<Address>,
    /// Subject.
    pub subject: String,
    /// Plain text body.
    pub body: String,
    /// Transport of the mail, if it names one.
    pub transport: Option<String>,
    /// Delivery state.
    pub status: MailStatus,
    /// Delivery attempts made so far.
    pub attempts: u32,
    /// What went wrong at the last attempt.
    pub last_error: Option<String>,
    /// When the mail was created.
    pub created_at: Timestamp,
    /// When the mail was last changed.
    pub updated_at: Timestamp,
    /// When the mail may be attempted again.
    pub next_attempt_at: Timestamp,
}

/// What a [`Mail`] stands for.
pub struct MailView {
    pub id: u128,
    pub from: AddressView,
    pub to: Seq<AddressView>,
    pub subject: Seq<char>,
    pub body: Seq<char>,
    pub transport: Option<Seq<char>>,
    pub status: MailStatus,
    pub attempts: u32,
    pub last_error: Option<Seq<char>>,
    pub created_at: Timestamp,
    pub updated_at: Timestamp,
    pub next_attempt_at: Timestamp,
}

impl View for Mail {
    type V = MailView;

    open spec fn view(&self) -> MailView {
        MailView {
            id: self.id,
            from: self.from@,
            to: addresses(self.to@),
            subject: self.subject@,
            body: self.body@,
            transport: opt_text(self.transport),
            status: self.status,
            attempts: self.attempts,
            last_error: opt_text(self.last_error),
            created_at: self.created_at,
            updated_at: self.updated_at,
            next_attempt_at: self.next_attempt_at,
        }
    }
}

impl MailView {
    /// The mail's points in time lie in the years 0 to 9999.
    pub open spec fn has_common_years(self) -> bool {
        &&& self.created_at.has_common_year()
        &&& self.updated_at.has_common_year()
        &&& self.next_attempt_at.has_common_year()
    }
}

/// The mail that `new` becomes in the queue.
pub open spec fn queued(new: NewMailView, now: Timestamp, id: u128) -> MailView {
    MailView {
        id,
        from: new.from,
        to: new.to,
        subject: new.subject,
        body: new.body,
        transport: new.transport,
        status: MailStatus::Pending,
        attempts: 0,
        last_error: None,
        created_at: now,
        updated_at: now,
        next_attempt_at: now,
    }
}

impl Mail {
    /// The queued mail of a payload at the time `now`.
    pub fn from_new(new: NewMail, now: Timestamp, id: MailId) -> (mail: Self)
        ensures
            mail@ == queued(new@, now, id),
    {
        Mail {
            id,
            from: new.from,
            to: new.to,
            subject: new.subject,
            body: new.body,
            transport: new.transport,
            status: MailStatus::Pending,
            attempts: 0,
            last_error: None,
            created_at: now,
            updated_at: now,
            next_attempt_at: now,
        }
    }
}

impl Clone for Mail {
    fn clone(&self) -> (copy: Self)
        ensures
            copy@ == self@,
    {
        Mail {
            id: self.id,
            from: self.from.clone(),
            to: copy_addresses(&self.to),
            subject: self.subject.clone(),
            body: self.body.clone(),
            transport: crate::text::copy_opt(&self.transport),
            status: self.status,
            attempts: self.attempts,
            last_error: crate::text::copy_opt(&self.last_error),
            created_at: self.created_at,
            updated_at: self.updated_at,
            next_attempt_at: self.next_attempt_at,
        }
    }
}

/// A mail in the queue says what was handed in. It is pending, has made no attempt and carries
/// no error, and may be attempted at once.
pub proof fn law_queued_mail_says_what_was_handed_in(new: NewMailView, now: Timestamp, id: u128)
    ensures
        ({
            let mail = queued(new, now, id);
            &&& mail.id == id
            &&& mail.from == new.from
            &&& mail.to == new.to
            &&& mail.subject == new.subject
            &&& mail.body == new.body
            &&& mail.transport == new.transport
            &&& mail.status is Pending
            &&& mail.attempts == 0
            &&& mail.last_error is None
            &&& mail.created_at == now
            &&& mail.updated_at == now
            &&& mail.next_attempt_at == now
        }),
{
}

/// A mail is accepted exactly when its sender and its subject hold more than white space and it
/// has a recipient.
pub proof fn law_what_makes_a_mail_valid(mail: NewMailView)
    ensures
        mail.problem() is None <==> {
            &&& exists|i: int|
                0 <= i < mail.from.email.len() && !is_white_space(#[trigger] mail.from.email[i])
            &&& mail.to.len() > 0
            &&& exists|i: int|
                0 <= i < mail.subject.len() && !is_white_space(#[trigger] mail.subject[i])
        },
{
    law_blank_text_is_trimmed_away(mail.from.email);
    law_blank_text_is_trimmed_away(mail.subject);
}

/// What is wrong with a mail is said of the sender first, then of the recipients, then of the
/// subject.
pub proof fn law_first_problem_is_reported(mail: NewMailView)
    ensures
        trimmed(mail.from.email).len() == 0 ==> mail.problem() == Some("sender address is empty"@),
        trimmed(mail.from.email).len() > 0 && mail.to.len() == 0 ==> mail.problem() == Some(
            "no recipients given"@,
        ),
        trimmed(mail.from.email).len() > 0 && mail.to.len() > 0 && trimmed(mail.subject).len() == 0
            ==> mail.problem() == Some("subject is empty"@),
{
}

/// The view of an address holds the address and the display name, and that of a list every one of
/// its addresses.
pub proof fn law_view_of_addresses(a: Address, list: Seq<Address>)
    ensures
        a@.email == a.email@,
        a.name is None <==> a@.name is None,
        a.name matches Some(name) ==> a@.name == Some(name@),
        addresses(list).len() == list.len(),
        forall|i: int| 0 <= i < list.len() ==> #[trigger] addresses(list)[i] == list[i]@,
{
}

/// The view of a mail that is handed in holds every field of it.
pub proof fn law_view_of_a_new_mail(new: NewMail)
    ensures
        new@.from == new.from@,
        new@.to.len() == new.to@.len(),
        forall|i: int| 0 <= i < new.to@.len() ==> #[trigger] new@.to[i] == new.to@[i]@,
        new@.subject == new.subject@,
        new@.body == new.body@,
        new.transport is None <==> new@.transport is None,
        new.transport matches Some(name) ==> new@.transport == Some(name@),
{
}

/// The view of a mail in the queue holds every field of it.
pub proof fn law_view_of_a_mail(mail: Mail)
    ensures
        mail@.id == mail.id,
        mail@.from == mail.from@,
        mail@.to.len() == mail.to@.len(),
        forall|i: int| 0 <= i < mail.to@.len() ==> #[trigger] mail@.to[i] == mail.to@[i]@,
        mail@.subject == mail.subject@,
        mail@.body == mail.body@,
        mail.transport is None <==> mail@.transport is None,
        mail.transport matches Some(name) ==> mail@.transport == Some(name@),
        mail@.status == mail.status,
        mail@.attempts == mail.attempts,
        mail.last_error is None <==> mail@.last_error is None,
        mail.last_error matches Some(error) ==> mail@.last_error == Some(error@),
        mail@.created_at == mail.created_at,
        mail@.updated_at == mail.updated_at,
        mail@.next_attempt_at == mail.next_attempt_at,
{
}

/// A mail is accepted before it is queued exactly when its sender and its subject hold more than
/// white space and it has a recipient.
pub proof fn law_validation_of_a_mail(new: &NewMail, result: Result<(), CoreError>)
    requires
        call_ensures(NewMail::validate, (new,), result),
    ensures
        result is Ok <==> {
            &&& exists|i: int|
                0 <= i < new.from.email@.len() && !is_white_space(#[trigger] new.from.email@[i])
            &&& new.to@.len() > 0
            &&& exists|i: int|
                0 <= i < new.subject@.len() && !is_white_space(#[trigger] new.subject@[i])
        },
        result matches Err(e) ==> e is InvalidMail,
{
    law_what_makes_a_mail_valid(new@);
    assert(new@.to.len() == new.to@.len());
    assert(new@.from.email == new.from.email@ && new@.subject == new.subject@);
}

/// A mail that is queued says what was handed in, is pending, and may be attempted at once.
pub proof fn law_mail_is_queued_as_handed_in(new: NewMail, now: Timestamp, id: MailId, mail: Mail)
    requires
        call_ensures(Mail::from_new, (new, now, id), mail),
    ensures
        mail.id == id,
        mail.from@ == new.from@,
        addresses(mail.to@) == addresses(new.to@),
        mail.subject@ == new.subject@,
        mail.body@ == new.body@,
        opt_text(mail.transport) == opt_text(new.transport),
        mail.status is Pending,
        mail.attempts == 0,
        mail.last_error is None,
        mail.created_at == now && mail.updated_at == now && mail.next_attempt_at == now,
{
    law_queued_mail_says_what_was_handed_in(new@, now, id);
    law_view_of_a_mail(mail);
    assert(mail@.to == addresses(mail.to@));
}

} // verus!
