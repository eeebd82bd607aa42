//! The data model: accounts, messages, attachments and their mathematical views.

use vstd::prelude::*;

verus! {

/// Configuration of one mail account; the core never mutates it.
#[derive(Clone, Debug, PartialEq, Eq)]
pub struct EmailAccount {
    pub address: String,
    pub password: String,
    pub smtp_server: String,
    pub smtp_port: u16,
    pub imap_server: String,
    pub imap_port: u16,
    pub use_tls: bool,
}

/// A file carried by a message, owned by that message.
#[derive(Clone, Debug, PartialEq, Eq)]
pub struct Attachment {
    pub filename: String,
    pub content_type: String,
    pub data: Vec<u8>,
}

/// Delivery status of an outgoing message; fetched messages are `Draft`.
#[derive(Clone, Debug, PartialEq, Eq)]
pub enum EmailStatus {
    Draft,
    Sending,
    Sent,
    Failed(String),
}

/// One message, as decoded from the server or composed locally.
#[derive(Clone, Debug, PartialEq, Eq)]
pub struct Email {
    pub id: String,
    pub from: String,
    pub to: Vec<String>,
    pub cc: Vec<String>,
    pub bcc: Vec<String>,
    pub subject: String,
    pub date: String,
    pub body: String,
    pub attachments: Vec<Attachment>,
    pub status: EmailStatus,
}

/// Mathematical value of an [`Attachment`].
pub struct AttachmentModel {
    pub filename: Seq<char>,
    pub content_type: Seq<char>,
    pub data: Seq<u8>,
}

/// Mathematical value of an [`EmailStatus`].
pub enum StatusModel {
    Draft,
    Sending,
    Sent,
    Failed(Seq<char>),
}

/// Mathematical value of an [`Email`].
pub struct EmailModel {
    pub id: Seq<char>,
    pub from: Seq<char>,
    pub to: Seq<Seq<char>>,
    pub cc: Seq<Seq<char>>,
    pub bcc: Seq<Seq<char>>,
    pub subject: Seq<char>,
    pub date: Seq<char>,
    pub body: Seq<char>,
    pub attachments: Seq<AttachmentModel>,
    pub status: StatusModel,
}

/// The characters of each string of a list.
pub open spec fn strings_view(v: Seq<String>) -> Seq<Seq<char>> {
    v.map_values(|s: String| s@)
}

/// The model of each attachment of a list.
pub open spec fn attachments_view(v: Seq<Attachment>) -> Seq<AttachmentModel> {
    v.map_values(|a: Attachment| a@)
}

impl View for Attachment {
    type V = AttachmentModel;

    open spec fn view(&self) -> AttachmentModel {
        AttachmentModel { filename: self.filename@, content_type: self.content_type@, data: self.data@ }
    }
}

impl View for EmailStatus {
    type V = StatusModel;

    open spec fn view(&self) -> StatusModel {
        match self {
            EmailStatus::Draft => StatusModel::Draft,
            EmailStatus::Sending => StatusModel::Sending,
            EmailStatus::Sent => StatusModel::Sent,
            EmailStatus::Failed(reason) => StatusModel::Failed(reason@),
        }
    }
}

impl View for Email {
    type V = EmailModel;

    open spec fn view(&self) -> EmailModel {
        EmailModel {
            id: self.id@,
            from: self.from@,
            to: strings_view(self.to@),
            cc: strings_view(self.cc@),
            bcc: strings_view(self.bcc@),
            subject: self.subject@,
            date: self.date@,
            body: self.body@,
            attachments: attachments_view(self.attachments@),
            status: self.status@,
        }
    }
}

/// A copy of a list of strings, element for element.
pub fn copy_strings(v: &Vec<String>) -> (r: Vec<String>)
    ensures
        strings_view(r@) == strings_view(v@),
{
    let mut r: Vec<String> = Vec::new();
    let mut i: usize = 0;
    while i < v.len()
        invariant
            i <= v.len(),
            r@.len() == i,
            forall|j: int| 0 <= j < i ==> (#[trigger] r@[j])@ == v@[j]@,
        decreases v.len() - i,
    {
        r.push(v[i].clone());
        i = i + 1;
    }
    assert(strings_view(r@) =~= strings_view(v@));
    r
}

impl Attachment {
    /// A copy with the same filename, content type and bytes.
    pub fn duplicate(&self) -> (r: Attachment)
        ensures
            r@ == self@,
    {
        Attachment {
            filename: self.filename.clone(),
            content_type: self.content_type.clone(),
            data: self.data.clone(),
        }
    }
}

impl EmailStatus {
    /// A copy of the same status.
    pub fn duplicate(&self) -> (r: EmailStatus)
        ensures
            r@ == self@,
    {
        match self {
            EmailStatus::Draft => EmailStatus::Draft,
            EmailStatus::Sending => EmailStatus::Sending,
            EmailStatus::Sent => EmailStatus::Sent,
            EmailStatus::Failed(reason) => EmailStatus::Failed(reason.clone()),
        }
    }
}

/// A copy of a list of attachments, element for element.
pub fn copy_attachments(v: &Vec<Attachment>) -> (r: Vec<Attachment>)
    ensures
        attachments_view(r@) == attachments_view(v@),
{
    let mut r: Vec<Attachment> = Vec::new();
    let mut i: usize = 0;
    while i < v.len()
        invariant
            i <= v.len(),
            r@.len() == i,
            forall|j: int| 0 <= j < i ==> (#[trigger] r@[j])@ == v@[j]@,
        decreases v.len() - i,
    {
        r.push(v[i].duplicate());
        i = i + 1;
    }
    assert(attachments_view(r@) =~= attachments_view(v@));
    r
}

impl Email {
    /// A field-for-field copy.
    pub fn duplicate(&self) -> (r: Email)
        ensures
            r@ == self@,
    {
        Email {
            id: self.id.clone(),
            from: self.from.clone(),
            to: copy_strings(&self.to),
            cc: copy_strings(&self.cc),
            bcc: copy_strings(&self.bcc),
            subject: self.subject.clone(),
            date: self.date.clone(),
            body: self.body.clone(),
            attachments: copy_attachments(&self.attachments),
            status: self.status.duplicate(),
        }
    }
}

impl Default for EmailAccount {
    /// An empty account on the usual secure ports: IMAP 993, SMTP 587, TLS on.
    fn default() -> (r: EmailAccount)
        ensures
            r.address@.len() == 0,
            r.password@.len() == 0,
            r.imap_server@.len() == 0,
            r.smtp_server@.len() == 0,
            r.imap_port == 993,
            r.smtp_port == 587,
            r.use_tls,
    {
        EmailAccount {
            address: String::new(),
            password: String::new(),
            imap_server: String::new(),
            imap_port: 993,
            smtp_server: String::new(),
            smtp_port: 587,
            use_tls: true,
        }
    }
}

} // verus!
