//! How a mail is laid out in a row of the queue's table.

use vstd::prelude::*;

use crate::error::CoreError;
use crate::id::{parse_id, write_id};
use crate::message::{copy_addresses, Address, Mail, MailStatus};
use crate::text::{copy_opt, join, same_text};
use crate::time::Timestamp;

verus! {

use crate::id::{id_parsed, id_text};
use crate::message::{addresses, AddressView, MailView};
use crate::text::{occurs_at, opt_text};
use crate::time::{lemma_timestamp_by_parts, reads_as, rfc3339_parsed, rfc3339_text};

/// The text that stands for a delivery state.
pub open spec fn status_text(status: MailStatus) -> Seq<char> {
    match status {
        MailStatus::Pending => "pending"@,
        MailStatus::Sending => "sending"@,
        MailStatus::Sent => "sent"@,
        MailStatus::Failed => "failed"@,
        MailStatus::Dead => "dead"@,
    }
}

/// The delivery state that a text stands for.
pub open spec fn status_of(raw: Seq<char>) -> Option<MailStatus> {
    if raw == "pending"@ {
        Some(MailStatus::Pending)
    } else if raw == "sending"@ {
        Some(MailStatus::Sending)
    } else if raw == "sent"@ {
        Some(MailStatus::Sent)
    } else if raw == "failed"@ {
        Some(MailStatus::Failed)
    } else if raw == "dead"@ {
        Some(MailStatus::Dead)
    } else {
        None
    }
}

/// Every delivery state is read back from its text.
pub proof fn law_status_round_trip(status: MailStatus)
    ensures
        status_of(status_text(status)) == Some(status),
{
    reveal_strlit("pending");
    reveal_strlit("sending");
    reveal_strlit("sent");
    reveal_strlit("failed");
    reveal_strlit("dead");
    assert("pending"@[0] != "sending"@[0]);
    assert("sent"@[0] != "dead"@[0]);
    assert("pending"@.len() == 7 && "sending"@.len() == 7);
    assert("sent"@.len() == 4 && "dead"@.len() == 4);
    assert("failed"@.len() == 6);
}

/// The text that stands for a delivery state.
pub fn status_to_str(status: MailStatus) -> (s: &'static str)
    ensures
        s@ == status_text(status),
{
    match status {
        MailStatus::Pending => "pending",
        MailStatus::Sending => "sending",
        MailStatus::Sent => "sent",
        MailStatus::Failed => "failed",
        MailStatus::Dead => "dead",
    }
}

/// `e` is an error of the queue with the detail `detail`.
pub open spec fn says_queue(e: CoreError, detail: Seq<char>) -> bool {
    e matches CoreError::Queue(text) && text@ == detail
}

/// The delivery state that a text stands for.
pub fn status_from_str(raw: &str) -> (status: Result<MailStatus, CoreError>)
    ensures
        match status {
            Ok(status) => status_of(raw@) == Some(status),
            Err(e) => status_of(raw@) is None && says_queue(e, "unknown status: "@ + raw@),
        },
{
    if same_text(raw, "pending") {
        Ok(MailStatus::Pending)
    } else if same_text(raw, "sending") {
        Ok(MailStatus::Sending)
    } else if same_text(raw, "sent") {
        Ok(MailStatus::Sent)
    } else if same_text(raw, "failed") {
        Ok(MailStatus::Failed)
    } else if same_text(raw, "dead") {
        Ok(MailStatus::Dead)
    } else {
        Err(CoreError::Queue(join("unknown status: ", raw)))
    }
}

/// Reads a stored point in time.
pub fn parse_time(raw: &str) -> (t: Result<Timestamp, CoreError>)
    ensures
        match t {
            Ok(t) => reads_as(raw@, t),
            Err(e) => rfc3339_parsed(raw@) matches Err(detail) && says_queue(
                e,
                "decode timestamp: "@ + detail,
            ),
        },
{
    match Timestamp::parse_rfc3339(raw) {
        Ok(t) => Ok(t),
        Err(e) => Err(CoreError::Queue(join("decode timestamp: ", e.as_str()))),
    }
}

/// A row of the queue's table. The columns of the sender and of the recipients hold encoded
/// addresses; here they stand decoded, or with what went wrong in decoding them.
#[derive(Debug)]
pub struct MailRow {
    /// Identifier.
    pub id: String,
    /// Sender.
    pub sender: Result<Address, String>,
    /// Recipients.
    pub recipients: Result<Vec<Address>, String>,
    /// Subject.
    pub subject: String,
    /// Plain text body.
    pub body: String,
    /// Transport, if the mail names one.
    pub transport: Option<String>,
    /// Delivery state.
    pub status: String,
    /// Delivery attempts.
    pub attempts: i64,
    /// What went wrong at the last attempt.
    pub last_error: Option<String>,
    /// When the mail was created.
    pub created_at: String,
    /// When the mail was last changed.
    pub updated_at: String,
    /// When the mail may be attempted again.
    pub next_attempt_at: String,
}

/// What a [`MailRow`] stands for.
pub struct RowView {
    pub id: Seq<char>,
    pub sender: Result<AddressView, Seq<char>>,
    pub recipients: Result<Seq<AddressView>, Seq<char>>,
    pub subject: Seq<char>,
    pub body: Seq<char>,
    pub transport: Option<Seq<char>>,
    pub status: Seq<char>,
    pub attempts: i64,
    pub last_error: Option<Seq<char>>,
    pub created_at: Seq<char>,
    pub updated_at: Seq<char>,
    pub next_attempt_at: Seq<char>,
}

impl View for MailRow {
    type V = RowView;

    open spec fn view(&self) -> RowView {
        RowView {
            id: self.id@,
            sender: match self.sender {
                Ok(a) => Ok(a@),
                Err(e) => Err(e@),
            },
            recipients: match self.recipients {
                Ok(list) => Ok(addresses(list@)),
                Err(e) => Err(e@),
            },
            subject: self.subject@,
            body: self.body@,
            transport: opt_text(self.transport),
            status: self.status@,
            attempts: self.attempts,
            last_error: opt_text(self.last_error),
            created_at: self.created_at@,
            updated_at: self.updated_at@,
            next_attempt_at: self.next_attempt_at@,
        }
    }
}

/// The row of a mail.
pub open spec fn row_of(mail: MailView) -> RowView {
    RowView {
        id: id_text(mail.id),
        sender: Ok(mail.from),
        recipients: Ok(mail.to),
        subject: mail.subject,
        body: mail.body,
        transport: mail.transport,
        status: status_text(mail.status),
        attempts: mail.attempts as i64,
        last_error: mail.last_error,
        created_at: rfc3339_text(mail.created_at.secs(), mail.created_at.nanos()),
        updated_at: rfc3339_text(mail.updated_at.secs(), mail.updated_at.nanos()),
        next_attempt_at: rfc3339_text(
            mail.next_attempt_at.secs(),
            mail.next_attempt_at.nanos(),
        ),
    }
}

/// What keeps a row from being read: the first of its columns that cannot be decoded.
pub open spec fn row_problem(row: RowView) -> Option<Seq<char>> {
    if let Err(e) = row.sender {
        Some("decode sender: "@ + e)
    } else if let Err(e) = row.recipients {
        Some("decode recipients: "@ + e)
    } else if let Err(e) = id_parsed(row.id) {
        Some("decode id: "@ + e)
    } else if status_of(row.status) is None {
        Some("unknown status: "@ + row.status)
    } else if let Err(e) = rfc3339_parsed(row.created_at) {
        Some("decode timestamp: "@ + e)
    } else if let Err(e) = rfc3339_parsed(row.updated_at) {
        Some("decode timestamp: "@ + e)
    } else if let Err(e) = rfc3339_parsed(row.next_attempt_at) {
        Some("decode timestamp: "@ + e)
    } else {
        None
    }
}

/// `mail` is what the columns of `row` hold.
pub open spec fn row_holds(row: RowView, mail: MailView) -> bool {
    &&& row.sender matches Ok(from) && from == mail.from
    &&& row.recipients matches Ok(to) && to == mail.to
    &&& id_parsed(row.id) matches Ok(id) && id == mail.id
    &&& status_of(row.status) == Some(mail.status)
    &&& reads_as(row.created_at, mail.created_at)
    &&& reads_as(row.updated_at, mail.updated_at)
    &&& reads_as(row.next_attempt_at, mail.next_attempt_at)
    &&& mail.subject == row.subject
    &&& mail.body == row.body
    &&& mail.transport == row.transport
    &&& mail.last_error == row.last_error
    &&& mail.attempts == row.attempts as u32
}

/// A row holds at most one mail: what is read from the row of a mail is that mail.
pub proof fn law_row_holds_one_mail(row: RowView, written: MailView, read: MailView)
    requires
        row_holds(row, written),
        row_holds(row, read),
    ensures
        read == written,
{
    lemma_timestamp_by_parts(read.created_at, written.created_at);
    lemma_timestamp_by_parts(read.updated_at, written.updated_at);
    lemma_timestamp_by_parts(read.next_attempt_at, written.next_attempt_at);
}

/// The row of a mail. Where its points in time lie in the years 0 to 9999, the mail can be read
/// back from it.
pub fn mail_to_row(mail: &Mail) -> (row: MailRow)
    ensures
        row@ == row_of(mail@),
        mail@.has_common_years() ==> row_problem(row@) is None && row_holds(row@, mail@),
{
    proof {
        law_status_round_trip(mail.status);
    }
    MailRow {
        id: write_id(mail.id),
        sender: Ok(mail.from.clone()),
        recipients: Ok(copy_addresses(&mail.to)),
        subject: mail.subject.clone(),
        body: mail.body.clone(),
        transport: copy_opt(&mail.transport),
        status: status_to_str(mail.status).to_owned(),
        attempts: mail.attempts as i64,
        last_error: copy_opt(&mail.last_error),
        created_at: mail.created_at.to_rfc3339(),
        updated_at: mail.updated_at.to_rfc3339(),
        next_attempt_at: mail.next_attempt_at.to_rfc3339(),
    }
}

/// Reads a mail from its row.
pub fn row_to_mail(row: MailRow) -> (mail: Result<Mail, CoreError>)
    ensures
        match mail {
            Ok(mail) => row_problem(row@) is None && row_holds(row@, mail@),
            Err(e) => row_problem(row@) matches Some(detail) && says_queue(e, detail),
        },
{
    let from = match row.sender {
        Ok(from) => from,
        Err(e) => {
            return Err(CoreError::Queue(join("decode sender: ", e.as_str())));
        },
    };
    let to = match row.recipients {
        Ok(to) => to,
        Err(e) => {
            return Err(CoreError::Queue(join("decode recipients: ", e.as_str())));
        },
    };
    let id: u128 = match parse_id(row.id.as_str()) {
        Ok(id) => id,
        Err(e) => {
            return Err(CoreError::Queue(join("decode id: ", e.as_str())));
        },
    };
    let status = status_from_str(row.status.as_str())?;
    let created_at = parse_time(row.created_at.as_str())?;
    let updated_at = parse_time(row.updated_at.as_str())?;
    let next_attempt_at = parse_time(row.next_attempt_at.as_str())?;
    Ok(
        Mail {
            id,
            from,
            to,
            subject: row.subject,
            body: row.body,
            transport: row.transport,
            status,
            attempts: #[verifier::truncate] (row.attempts as u32),
            last_error: row.last_error,
            created_at,
            updated_at,
            next_attempt_at,
        },
    )
}

/// Every column of a mail's row holds what its name says.
pub proof fn law_columns_hold_what_they_are_named_for(mail: MailView)
    ensures
        ({
            let row = row_of(mail);
            &&& row.id == id_text(mail.id)
            &&& row.sender matches Ok(from) && from == mail.from
            &&& row.recipients matches Ok(to) && to == mail.to
            &&& row.subject == mail.subject
            &&& row.body == mail.body
            &&& row.transport == mail.transport
            &&& row.attempts == mail.attempts
            &&& row.last_error == mail.last_error
            &&& row.created_at == rfc3339_text(mail.created_at.secs(), mail.created_at.nanos())
            &&& row.updated_at == rfc3339_text(mail.updated_at.secs(), mail.updated_at.nanos())
            &&& row.next_attempt_at == rfc3339_text(
                mail.next_attempt_at.secs(),
                mail.next_attempt_at.nanos(),
            )
        }),
{
}

/// A mail that is read from a row has in every field what the column of that name holds.
pub proof fn law_fields_come_from_their_columns(row: RowView, mail: MailView)
    requires
        row_holds(row, mail),
    ensures
        row.sender matches Ok(from) && mail.from == from,
        row.recipients matches Ok(to) && mail.to == to,
        id_parsed(row.id) matches Ok(id) && mail.id == id,
        mail.subject == row.subject,
        mail.body == row.body,
        mail.transport == row.transport,
        mail.last_error == row.last_error,
        0 <= row.attempts <= u32::MAX ==> mail.attempts == row.attempts,
        rfc3339_parsed(row.created_at) matches Ok(parts) && parts.0 == mail.created_at.secs()
            && parts.1 == mail.created_at.nanos(),
        rfc3339_parsed(row.updated_at) matches Ok(parts) && parts.0 == mail.updated_at.secs()
            && parts.1 == mail.updated_at.nanos(),
        rfc3339_parsed(row.next_attempt_at) matches Ok(parts) && parts.0
            == mail.next_attempt_at.secs() && parts.1 == mail.next_attempt_at.nanos(),
{
}

/// A row can be read exactly when every one of its columns can.
pub proof fn law_row_is_read_where_its_columns_are(row: RowView)
    ensures
        row_problem(row) is None <==> {
            &&& row.sender is Ok
            &&& row.recipients is Ok
            &&& id_parsed(row.id) is Ok
            &&& row.status == "pending"@ || row.status == "sending"@ || row.status == "sent"@
                || row.status == "failed"@ || row.status == "dead"@
            &&& rfc3339_parsed(row.created_at) is Ok
            &&& rfc3339_parsed(row.updated_at) is Ok
            &&& rfc3339_parsed(row.next_attempt_at) is Ok
        },
{
}

/// Each delivery state is stored under its own name, and read from that name alone.
pub proof fn law_states_are_stored_by_name(raw: Seq<char>)
    ensures
        status_of(raw) matches Some(status) ==> raw == status_text(status),
        status_text(MailStatus::Pending) == "pending"@,
        status_text(MailStatus::Sending) == "sending"@,
        status_text(MailStatus::Sent) == "sent"@,
        status_text(MailStatus::Failed) == "failed"@,
        status_text(MailStatus::Dead) == "dead"@,
{
}

/// A mail that was written to a row and read from it again is the same mail, where its points in
/// time lie in the years 0 to 9999.
pub proof fn law_mail_survives_its_row(
    written: &Mail,
    row: MailRow,
    read: Result<Mail, CoreError>,
)
    requires
        call_ensures(mail_to_row, (written,), row),
        call_ensures(row_to_mail, (row,), read),
        -62167219200 <= written.created_at.secs() <= 253402300799,
        -62167219200 <= written.updated_at.secs() <= 253402300799,
        -62167219200 <= written.next_attempt_at.secs() <= 253402300799,
    ensures
        read matches Ok(mail) && mail@ == written@,
{
    if let Ok(mail) = read {
        law_row_holds_one_mail(row@, written@, mail@);
    }
}

/// The view of a row holds every column of it.
pub proof fn law_view_of_a_row(row: MailRow)
    ensures
        row@.id == row.id@,
        row.sender matches Ok(from) ==> (row@.sender matches Ok(view) && view == from@),
        row.sender matches Err(e) ==> (row@.sender matches Err(text) && text == e@),
        row.recipients matches Ok(to) ==> (row@.recipients matches Ok(views) && views.len()
            == to@.len() && forall|i: int| 0 <= i < to@.len() ==> #[trigger] views[i] == to@[i]@),
        row.recipients matches Err(e) ==> (row@.recipients matches Err(text) && text == e@),
        row@.subject == row.subject@,
        row@.body == row.body@,
        row.transport is None <==> row@.transport is None,
        row.transport matches Some(name) ==> row@.transport == Some(name@),
        row@.status == row.status@,
        row@.attempts == row.attempts,
        row.last_error is None <==> row@.last_error is None,
        row.last_error matches Some(error) ==> row@.last_error == Some(error@),
        row@.created_at == row.created_at@,
        row@.updated_at == row.updated_at@,
        row@.next_attempt_at == row.next_attempt_at@,
{
}

/// An error of the queue carries the detail that it is said to have.
pub proof fn law_queue_error_has_its_detail(e: CoreError, detail: Seq<char>)
    requires
        says_queue(e, detail),
    ensures
        e matches CoreError::Queue(text) && text@ == detail,
{
}

/// What keeps a row from being read is said of the first column that cannot be decoded, with what
/// is wrong with it.
pub proof fn law_first_bad_column_is_reported(row: RowView)
    ensures
        row.sender matches Err(e) ==> row_problem(row) == Some("decode sender: "@ + e),
        row.sender is Ok && row.recipients is Err ==> row_problem(row) == Some(
            "decode recipients: "@ + row.recipients->Err_0,
        ),
        row.sender is Ok && row.recipients is Ok && id_parsed(row.id) is Err ==> row_problem(row)
            == Some("decode id: "@ + id_parsed(row.id)->Err_0),
        row.sender is Ok && row.recipients is Ok && id_parsed(row.id) is Ok && status_of(row.status)
            is None ==> row_problem(row) == Some("unknown status: "@ + row.status),
        row.sender is Ok && row.recipients is Ok && id_parsed(row.id) is Ok && status_of(row.status)
            is Some && row_problem(row) is Some ==> occurs_at(
            row_problem(row)->0,
            "decode timestamp: "@,
            0,
        ),
{
    let head = "decode timestamp: "@;
    if let Err(e) = rfc3339_parsed(row.created_at) {
        assert((head + e).subrange(0, head.len() as int) == head);
    }
    if let Err(e) = rfc3339_parsed(row.updated_at) {
        assert((head + e).subrange(0, head.len() as int) == head);
    }
    if let Err(e) = rfc3339_parsed(row.next_attempt_at) {
        assert((head + e).subrange(0, head.len() as int) == head);
    }
}

} // verus!
