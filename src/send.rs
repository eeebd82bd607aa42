//! Assembling an outgoing message and classifying delivery failures.

use vstd::prelude::*;
use crate::clock::{SyncTime, now};
use crate::model::{Email, EmailAccount, EmailStatus, StatusModel, strings_view};

verus! {

#[verifier::external_type_specification]
#[verifier::external_body]
pub struct ExMailbox(lettre::message::Mailbox);

#[verifier::external_type_specification]
#[verifier::external_body]
pub struct ExMessageBuilder(lettre::message::MessageBuilder);

#[verifier::external_type_specification]
#[verifier::external_body]
pub struct ExMultiPart(lettre::message::MultiPart);

#[verifier::external_type_specification]
#[verifier::external_body]
pub struct ExSinglePart(lettre::message::SinglePart);

#[verifier::external_type_specification]
#[verifier::external_body]
pub struct ExContentType(lettre::message::header::ContentType);

#[verifier::external_type_specification]
#[verifier::external_body]
pub struct ExMessage(lettre::Message);

#[verifier::external_type_specification]
#[verifier::external_body]
pub struct ExEmailError(lettre::error::Error);

/// Whether lettre accepts a text as a mailbox (`user@domain` or
/// `Name <user@domain>`).
pub uninterp spec fn is_mailbox(s: Seq<char>) -> bool;

/// Whether lettre accepts a text as a MIME content type.
pub uninterp spec fn is_content_type(s: Seq<char>) -> bool;

/// One part of an outgoing body: the plain-text body, or an attachment with
/// its file name, content type and bytes.
pub enum PartModel {
    Text(Seq<char>),
    File(Seq<char>, Seq<char>, Seq<u8>),
}

/// What an outgoing message holds: each address by the text it was parsed
/// from, in the order added; the subject; the `Date` header as seconds of
/// the Unix epoch; the parts of its `multipart/mixed` body in order.
pub struct MessageModel {
    pub from: Seq<Seq<char>>,
    pub to: Seq<Seq<char>>,
    pub cc: Seq<Seq<char>>,
    pub bcc: Seq<Seq<char>>,
    pub subject: Option<Seq<char>>,
    pub date: Option<int>,
    pub parts: Seq<PartModel>,
}

/// A message with no header and no part.
pub open spec fn empty_message() -> MessageModel {
    MessageModel {
        from: Seq::empty(),
        to: Seq::empty(),
        cc: Seq::empty(),
        bcc: Seq::empty(),
        subject: None,
        date: None,
        parts: Seq::empty(),
    }
}

/// The first second that the HTTP date format of lettre's `Date` header
/// cannot write: the start of the year 10000.
pub const DATE_LIMIT: i64 = 253402300800;

/// A mailbox parsed by lettre, with the text it came from. Only the
/// wrappers below make or change the values of this and the following
/// types, so that each model records what lettre was given.
pub struct ParsedAddress {
    mailbox: lettre::message::Mailbox,
    source: Ghost<Seq<char>>,
}

impl View for ParsedAddress {
    type V = Seq<char>;

    closed spec fn view(&self) -> Seq<char> {
        self.source@
    }
}

/// A content type parsed by lettre, with the text it came from.
pub struct ParsedMediaType {
    content_type: lettre::message::header::ContentType,
    source: Ghost<Seq<char>>,
}

impl View for ParsedMediaType {
    type V = Seq<char>;

    closed spec fn view(&self) -> Seq<char> {
        self.source@
    }
}

/// A message under construction.
pub struct MessageDraft {
    builder: lettre::message::MessageBuilder,
    model: Ghost<MessageModel>,
}

impl View for MessageDraft {
    type V = MessageModel;

    closed spec fn view(&self) -> MessageModel {
        self.model@
    }
}

/// One body part under construction.
pub struct PartDraft {
    part: lettre::message::SinglePart,
    model: Ghost<PartModel>,
}

impl View for PartDraft {
    type V = PartModel;

    closed spec fn view(&self) -> PartModel {
        self.model@
    }
}

/// A `multipart/mixed` body under construction.
pub struct BodyDraft {
    body: lettre::message::MultiPart,
    parts: Ghost<Seq<PartModel>>,
}

impl View for BodyDraft {
    type V = Seq<PartModel>;

    closed spec fn view(&self) -> Seq<PartModel> {
        self.parts@
    }
}

/// A message ready for delivery.
pub struct OutgoingMessage {
    message: lettre::Message,
    model: Ghost<MessageModel>,
}

impl View for OutgoingMessage {
    type V = MessageModel;

    closed spec fn view(&self) -> MessageModel {
        self.model@
    }
}

impl OutgoingMessage {
    /// The message as lettre holds it, for a transport.
    pub fn message(&self) -> &lettre::Message {
        &self.message
    }
}

/// A ghost that holds no value of its own; a wrapper fills it by stating
/// in its `ensures` what it holds. It is erased when the crate runs.
fn ghost_slot<A>() -> (r: Ghost<A>) {
    Ghost(arbitrary())
}

/// Relies on lettre's `FromStr` for `Mailbox`, which fails on text that is
/// not an address; the outcome depends on the text alone.
#[verifier::external_body]
fn parse_mailbox(s: &str) -> (r: Option<ParsedAddress>)
    ensures
        r is Some == is_mailbox(s@),
        r matches Some(a) ==> a@ == s@,
{
    s.parse::<lettre::message::Mailbox>().ok().map(|m| ParsedAddress { mailbox: m, source: ghost_slot() })
}

/// Relies on lettre's `FromStr` for `ContentType`, which fails on text that
/// is not a media type; the outcome depends on the text alone.
#[verifier::external_body]
fn parse_content_type(s: &str) -> (r: Option<ParsedMediaType>)
    ensures
        r is Some == is_content_type(s@),
        r matches Some(t) ==> t@ == s@,
{
    s.parse::<lettre::message::header::ContentType>().ok().map(
        |c| ParsedMediaType { content_type: c, source: ghost_slot() },
    )
}

/// Relies on `lettre::Message::builder`: a builder with no header.
#[verifier::external_body]
fn start_message() -> (r: MessageDraft)
    ensures
        r@ == empty_message(),
{
    MessageDraft { builder: lettre::Message::builder(), model: ghost_slot() }
}

/// Relies on `MessageBuilder::from`, which joins the mailbox to the `From`
/// header.
#[verifier::external_body]
fn set_from(b: MessageDraft, m: ParsedAddress) -> (r: MessageDraft)
    ensures
        r@ == (MessageModel { from: b@.from.push(m@), ..b@ }),
{
    MessageDraft { builder: b.builder.from(m.mailbox), model: b.model }
}

/// Relies on `MessageBuilder::to`, which joins the mailbox to the `To`
/// header.
#[verifier::external_body]
fn add_to(b: MessageDraft, m: ParsedAddress) -> (r: MessageDraft)
    ensures
        r@ == (MessageModel { to: b@.to.push(m@), ..b@ }),
{
    MessageDraft { builder: b.builder.to(m.mailbox), model: b.model }
}

/// Relies on `MessageBuilder::cc`, which joins the mailbox to the `Cc`
/// header.
#[verifier::external_body]
fn add_cc(b: MessageDraft, m: ParsedAddress) -> (r: MessageDraft)
    ensures
        r@ == (MessageModel { cc: b@.cc.push(m@), ..b@ }),
{
    MessageDraft { builder: b.builder.cc(m.mailbox), model: b.model }
}

/// Relies on `MessageBuilder::bcc`, which joins the mailbox to the `Bcc`
/// header.
#[verifier::external_body]
fn add_bcc(b: MessageDraft, m: ParsedAddress) -> (r: MessageDraft)
    ensures
        r@ == (MessageModel { bcc: b@.bcc.push(m@), ..b@ }),
{
    MessageDraft { builder: b.builder.bcc(m.mailbox), model: b.model }
}

/// Relies on `MessageBuilder::subject`, which sets the `Subject` header.
#[verifier::external_body]
fn set_subject(b: MessageDraft, s: &str) -> (r: MessageDraft)
    ensures
        r@ == (MessageModel { subject: Some(s@), ..b@ }),
{
    MessageDraft { builder: b.builder.subject(s), model: b.model }
}

/// Relies on `MessageBuilder::date`, which sets the `Date` header through
/// httpdate; httpdate panics on an instant before 1970 or from the year
/// 10000 on, which `requires` leaves out.
#[verifier::external_body]
fn set_date(b: MessageDraft, secs: i64) -> (r: MessageDraft)
    requires
        0 <= secs < DATE_LIMIT,
    ensures
        r@ == (MessageModel { date: Some(secs as int), ..b@ }),
{
    let t = std::time::UNIX_EPOCH + std::time::Duration::from_secs(secs as u64);
    MessageDraft { builder: b.builder.date(t), model: b.model }
}

/// Relies on `SinglePart::plain`, a `text/plain` part holding `body`.
#[verifier::external_body]
fn plain_part(body: &str) -> (r: PartDraft)
    ensures
        r@ == PartModel::Text(body@),
{
    PartDraft { part: lettre::message::SinglePart::plain(body.to_string()), model: ghost_slot() }
}

/// Relies on lettre's `Attachment::new` and `Attachment::body`: a part that
/// carries the bytes as an attachment named `filename`, with the content
/// type given.
#[verifier::external_body]
fn attachment_part(filename: &str, data: &Vec<u8>, ct: ParsedMediaType) -> (r: PartDraft)
    ensures
        r@ == PartModel::File(filename@, ct@, data@),
{
    let part = lettre::message::Attachment::new(filename.to_string()).body(data.clone(), ct.content_type);
    PartDraft { part, model: ghost_slot() }
}

/// Relies on `MultiPart::mixed` and `MultiPartBuilder::singlepart`: a
/// `multipart/mixed` body whose first part is `p`.
#[verifier::external_body]
fn mixed_body(p: PartDraft) -> (r: BodyDraft)
    ensures
        r@ == seq![p@],
{
    BodyDraft { body: lettre::message::MultiPart::mixed().singlepart(p.part), parts: ghost_slot() }
}

/// Relies on `MultiPart::singlepart`, which appends one more part.
#[verifier::external_body]
fn next_part(m: BodyDraft, p: PartDraft) -> (r: BodyDraft)
    ensures
        r@ == m@.push(p@),
{
    BodyDraft { body: m.body.singlepart(p.part), parts: m.parts }
}

/// Relies on `MessageBuilder::multipart`, which fails exactly when the
/// `From` header is missing, when it holds more than one mailbox (no
/// `Sender` is ever set here), or when `To`, `Cc` and `Bcc` hold no
/// recipient. With the `Date` header set it reads no clock.
#[verifier::external_body]
fn finish_message(b: MessageDraft, m: BodyDraft) -> (r: Result<OutgoingMessage, lettre::error::Error>)
    requires
        b@.date is Some,
    ensures
        r is Ok <==> (b@.from.len() == 1 && b@.to.len() + b@.cc.len() + b@.bcc.len() > 0),
        r matches Ok(o) ==> o@ == (MessageModel { parts: m@, ..b@ }),
{
    let model = b.model;
    b.builder.multipart(m.body).map(|message| OutgoingMessage { message, model })
}

/// Joins a recipient to list `field` of the draft.
fn draft_recipient(b: MessageDraft, m: ParsedAddress, field: RecipientField) -> (r: MessageDraft)
    ensures
        r@ == with_recipients(b@, field, seq![m@]),
{
    let ghost before = b@;
    let r = match field {
        RecipientField::To => add_to(b, m),
        RecipientField::Cc => add_cc(b, m),
        RecipientField::Bcc => add_bcc(b, m),
    };
    assert(before.to.push(m@) =~= before.to + seq![m@]);
    assert(before.cc.push(m@) =~= before.cc + seq![m@]);
    assert(before.bcc.push(m@) =~= before.bcc + seq![m@]);
    r
}

/// Why a message could not be built or delivered.
#[derive(Clone, Debug, PartialEq, Eq)]
pub enum SendError {
    /// This sender or recipient address is not valid.
    AddressParse(String),
    /// This attachment content type is not valid.
    InvalidContentType(String),
    /// The message names no recipient.
    NoRecipient,
    /// The clock reads a time that a `Date` header cannot hold.
    ClockOutOfRange,
    /// The relay refused the credentials.
    AuthFailure(String),
    /// The relay could not be reached or refused the message.
    TransportFailure(String),
}

/// The first text of a list that is not a valid address.
pub open spec fn first_invalid(s: Seq<String>) -> Option<Seq<char>>
    decreases s.len(),
{
    if s.len() == 0 {
        None
    } else {
        match first_invalid(s.drop_last()) {
            Some(a) => Some(a),
            None => if is_mailbox(s.last()@) {
                None
            } else {
                Some(s.last()@)
            },
        }
    }
}

/// The first content type of a list of attachments that is not valid.
pub open spec fn first_invalid_type(s: Seq<crate::model::Attachment>) -> Option<Seq<char>>
    decreases s.len(),
{
    if s.len() == 0 {
        None
    } else {
        match first_invalid_type(s.drop_last()) {
            Some(a) => Some(a),
            None => if is_content_type(s.last().content_type@) {
                None
            } else {
                Some(s.last().content_type@)
            },
        }
    }
}

/// The first invalid address in the order the message is built: the
/// account's own address as sender, then `to`, `cc` and `bcc`.
pub open spec fn address_problem(account: EmailAccount, email: Email) -> Option<Seq<char>> {
    if !is_mailbox(account.address@) {
        Some(account.address@)
    } else {
        match first_invalid(email.to@) {
            Some(a) => Some(a),
            None => match first_invalid(email.cc@) {
                Some(a) => Some(a),
                None => first_invalid(email.bcc@),
            },
        }
    }
}

/// The attachment part of an attachment.
pub open spec fn file_part(a: crate::model::Attachment) -> PartModel {
    PartModel::File(a.filename@, a.content_type@, a.data@)
}

/// The message that `email` from `account` becomes when sent at `sent_at`:
/// the account's address as sole sender, the recipients in order, the
/// subject, the date, the body as plain text followed by one part per
/// attachment.
pub open spec fn message_of(account: EmailAccount, email: Email, sent_at: SyncTime) -> MessageModel {
    MessageModel {
        from: seq![account.address@],
        to: strings_view(email.to@),
        cc: strings_view(email.cc@),
        bcc: strings_view(email.bcc@),
        subject: Some(email.subject@),
        date: Some(sent_at.secs as int),
        parts: seq![PartModel::Text(email.body@)] + email.attachments@.map_values(|a: crate::model::Attachment| file_part(a)),
    }
}

/// Which recipient list a parsed address goes to.
#[derive(Clone, Copy, Debug, PartialEq, Eq, Structural)]
pub enum RecipientField {
    To,
    Cc,
    Bcc,
}

/// `m` with `added` appended to recipient list `field`.
pub open spec fn with_recipients(m: MessageModel, field: RecipientField, added: Seq<Seq<char>>) -> MessageModel {
    match field {
        RecipientField::To => MessageModel { to: m.to + added, ..m },
        RecipientField::Cc => MessageModel { cc: m.cc + added, ..m },
        RecipientField::Bcc => MessageModel { bcc: m.bcc + added, ..m },
    }
}

/// Adds every address of `list` to field `field`, stopping at the first
/// invalid one, which is returned.
fn add_recipients(b: MessageDraft, list: &Vec<String>, field: RecipientField) -> (r: Result<MessageDraft, String>)
    ensures
        match r {
            Ok(d) => first_invalid(list@) is None && d@ == with_recipients(b@, field, strings_view(list@)),
            Err(a) => first_invalid(list@) == Some(a@),
        },
{
    let ghost start = b@;
    let mut b = b;
    let mut i: usize = 0;
    assert(strings_view(list@.subrange(0, 0)) =~= Seq::<Seq<char>>::empty());
    assert(start.to + Seq::<Seq<char>>::empty() =~= start.to);
    assert(start.cc + Seq::<Seq<char>>::empty() =~= start.cc);
    assert(start.bcc + Seq::<Seq<char>>::empty() =~= start.bcc);
    while i < list.len()
        invariant
            i <= list@.len(),
            first_invalid(list@.subrange(0, i as int)) is None,
            b@ == with_recipients(start, field, strings_view(list@.subrange(0, i as int))),
        decreases list@.len() - i,
    {
        assert(list@.subrange(0, i + 1).drop_last() =~= list@.subrange(0, i as int));
        let ghost added = strings_view(list@.subrange(0, i as int));
        match parse_mailbox(list[i].as_str()) {
            Some(m) => {
                assert(strings_view(list@.subrange(0, i + 1)) =~= added.push(list@[i as int]@));
                assert(start.to + added.push(m@) =~= (start.to + added) + seq![m@]);
                assert(start.cc + added.push(m@) =~= (start.cc + added) + seq![m@]);
                assert(start.bcc + added.push(m@) =~= (start.bcc + added) + seq![m@]);
                b = draft_recipient(b, m, field);
            },
            None => {
                proof {
                    lemma_invalid_prefix(list@, i as int + 1);
                }
                return Err(list[i].clone());
            },
        }
        i = i + 1;
    }
    assert(list@.subrange(0, list@.len() as int) =~= list@);
    Ok(b)
}

/// An invalid address found in a prefix is the first of the whole list.
proof fn lemma_invalid_prefix(s: Seq<String>, n: int)
    requires
        0 <= n <= s.len(),
        first_invalid(s.subrange(0, n)) is Some,
    ensures
        first_invalid(s) == first_invalid(s.subrange(0, n)),
    decreases s.len() - n,
{
    if n < s.len() {
        assert(s.subrange(0, n + 1).drop_last() =~= s.subrange(0, n));
        lemma_invalid_prefix(s, n + 1);
    } else {
        assert(s.subrange(0, n) =~= s);
    }
}

/// A content type found invalid in a prefix is the first of the whole list.
proof fn lemma_invalid_type_prefix(s: Seq<crate::model::Attachment>, n: int)
    requires
        0 <= n <= s.len(),
        first_invalid_type(s.subrange(0, n)) is Some,
    ensures
        first_invalid_type(s) == first_invalid_type(s.subrange(0, n)),
    decreases s.len() - n,
{
    if n < s.len() {
        assert(s.subrange(0, n + 1).drop_last() =~= s.subrange(0, n));
        lemma_invalid_type_prefix(s, n + 1);
    } else {
        assert(s.subrange(0, n) =~= s);
    }
}

/// What building `email` from `account` at `sent_at` yields: the first
/// invalid address (sender, then `to`, `cc` and `bcc`) stops it; then the
/// first invalid attachment content type; a message with no recipient is
/// refused; otherwise the message is `message_of`.
pub open spec fn build_outcome(account: EmailAccount, email: Email, sent_at: SyncTime, r: Result<OutgoingMessage, SendError>) -> bool {
    match address_problem(account, email) {
        Some(a) => r matches Err(SendError::AddressParse(x)) && x@ == a,
        None => match first_invalid_type(email.attachments@) {
            Some(t) => r matches Err(SendError::InvalidContentType(x)) && x@ == t,
            None => if email.to@.len() + email.cc@.len() + email.bcc@.len() == 0 {
                r matches Err(SendError::NoRecipient)
            } else {
                r matches Ok(m) && m@ == message_of(account, email, sent_at)
            },
        },
    }
}

/// Builds the outgoing message of `email` from `account`, dated `sent_at`.
pub fn build_message(account: &EmailAccount, email: &Email, sent_at: SyncTime) -> (r: Result<OutgoingMessage, SendError>)
    requires
        0 <= sent_at.secs < DATE_LIMIT,
    ensures
        build_outcome(*account, *email, sent_at, r),
{
    let from = match parse_mailbox(account.address.as_str()) {
        Some(m) => m,
        None => return Err(SendError::AddressParse(account.address.clone())),
    };
    let b = set_from(start_message(), from);
    let b = match add_recipients(b, &email.to, RecipientField::To) {
        Ok(b) => b,
        Err(a) => return Err(SendError::AddressParse(a)),
    };
    let b = match add_recipients(b, &email.cc, RecipientField::Cc) {
        Ok(b) => b,
        Err(a) => return Err(SendError::AddressParse(a)),
    };
    let b = match add_recipients(b, &email.bcc, RecipientField::Bcc) {
        Ok(b) => b,
        Err(a) => return Err(SendError::AddressParse(a)),
    };
    assert(address_problem(*account, *email) is None);
    let b = set_subject(b, email.subject.as_str());
    let b = set_date(b, sent_at.secs);
    assert(Seq::<Seq<char>>::empty() + strings_view(email.to@) =~= strings_view(email.to@));
    assert(Seq::<Seq<char>>::empty() + strings_view(email.cc@) =~= strings_view(email.cc@));
    assert(Seq::<Seq<char>>::empty() + strings_view(email.bcc@) =~= strings_view(email.bcc@));
    let ghost head = message_of(*account, *email, sent_at);
    assert(b@ == (MessageModel { parts: b@.parts, ..head }));
    let mut body = mixed_body(plain_part(email.body.as_str()));
    let mut i: usize = 0;
    while i < email.attachments.len()
        invariant
            i <= email.attachments@.len(),
            address_problem(*account, *email) is None,
            first_invalid_type(email.attachments@.subrange(0, i as int)) is None,
            body@ == seq![PartModel::Text(email.body@)] + email.attachments@.subrange(0, i as int).map_values(
                |a: crate::model::Attachment| file_part(a),
            ),
        decreases email.attachments@.len() - i,
    {
        let att = &email.attachments[i];
        assert(email.attachments@.subrange(0, i + 1).drop_last() =~= email.attachments@.subrange(0, i as int));
        match parse_content_type(att.content_type.as_str()) {
            Some(ct) => {
                let ghost before = body@;
                body = next_part(body, attachment_part(att.filename.as_str(), &att.data, ct));
                assert(email.attachments@.subrange(0, i + 1).map_values(|a: crate::model::Attachment| file_part(a))
                    =~= email.attachments@.subrange(0, i as int).map_values(|a: crate::model::Attachment| file_part(a)).push(
                    file_part(email.attachments@[i as int]),
                ));
                assert(body@ =~= seq![PartModel::Text(email.body@)] + email.attachments@.subrange(0, i + 1).map_values(
                    |a: crate::model::Attachment| file_part(a),
                ));
            },
            None => {
                proof {
                    lemma_invalid_type_prefix(email.attachments@, i as int + 1);
                }
                return Err(SendError::InvalidContentType(att.content_type.clone()));
            },
        }
        i = i + 1;
    }
    assert(email.attachments@.subrange(0, email.attachments@.len() as int) =~= email.attachments@);
    match finish_message(b, body) {
        Ok(m) => Ok(m),
        Err(_) => Err(SendError::NoRecipient),
    }
}

/// Builds the outgoing message of `email` from `account`, dated now; when
/// the clock reads a time that the `Date` header cannot hold (before 1970
/// or from the year 10000 on), the build is refused.
pub fn build_message_now(account: &EmailAccount, email: &Email) -> (r: Result<OutgoingMessage, SendError>)
    ensures
        r matches Err(SendError::ClockOutOfRange) || exists|t: SyncTime| 0 <= t.secs < DATE_LIMIT && build_outcome(
            *account,
            *email,
            t,
            r,
        ),
{
    let t = now();
    if t.secs < 0 || t.secs >= DATE_LIMIT {
        return Err(SendError::ClockOutOfRange);
    }
    build_message(account, email, t)
}

/// An SMTP reply code that refuses authentication: 530 (required), 534
/// (mechanism too weak) or 535 (credentials invalid).
pub open spec fn is_auth_refusal(code: Option<u16>) -> bool {
    code == Some(530u16) || code == Some(534u16) || code == Some(535u16)
}

/// The error for a failed delivery, from the relay's reply code if it gave
/// one and the failure's description.
pub fn delivery_failure(code: Option<u16>, detail: String) -> (r: SendError)
    ensures
        is_auth_refusal(code) ==> r == SendError::AuthFailure(detail),
        !is_auth_refusal(code) ==> r == SendError::TransportFailure(detail),
{
    match code {
        Some(c) => if c == 530 || c == 534 || c == 535 {
            SendError::AuthFailure(detail)
        } else {
            SendError::TransportFailure(detail)
        },
        None => SendError::TransportFailure(detail),
    }
}

impl SendError {
    /// A one-line description of the failure.
    pub fn describe(&self) -> (r: String)
        ensures
            r@ == describe_text(*self),
    {
        match self {
            SendError::AddressParse(a) => String::from_str("invalid address: ").concat(a.as_str()),
            SendError::InvalidContentType(t) => String::from_str("invalid content type: ").concat(t.as_str()),
            SendError::NoRecipient => String::from_str("no recipient"),
            SendError::ClockOutOfRange => String::from_str("the clock is out of range"),
            SendError::AuthFailure(d) => String::from_str("authentication failed: ").concat(d.as_str()),
            SendError::TransportFailure(d) => String::from_str("delivery failed: ").concat(d.as_str()),
        }
    }
}

/// The description of a send failure.
pub open spec fn describe_text(e: SendError) -> Seq<char> {
    match e {
        SendError::AddressParse(a) => "invalid address: "@ + a@,
        SendError::InvalidContentType(t) => "invalid content type: "@ + t@,
        SendError::NoRecipient => "no recipient"@,
        SendError::ClockOutOfRange => "the clock is out of range"@,
        SendError::AuthFailure(d) => "authentication failed: "@ + d@,
        SendError::TransportFailure(d) => "delivery failed: "@ + d@,
    }
}

/// The status of an outgoing message once its delivery was attempted:
/// `Sent`, or `Failed` with the description of the failure.
pub fn delivery_status(outcome: &Result<(), SendError>) -> (r: EmailStatus)
    ensures
        match outcome {
            Ok(_) => r@ == StatusModel::Sent,
            Err(e) => r@ == StatusModel::Failed(describe_text(*e)),
        },
{
    match outcome {
        Ok(_) => EmailStatus::Sent,
        Err(e) => EmailStatus::Failed(e.describe()),
    }
}

} // verus!
