use mail_core::clock::SyncTime;
use mail_core::model::{Attachment, Email, EmailAccount, EmailStatus};
use mail_core::send::{build_message, build_message_now, delivery_failure, delivery_status, SendError};

const AT: SyncTime = SyncTime { secs: 1_700_000_000, nanos: 0 };

fn account() -> EmailAccount {
    EmailAccount { address: "me@example.com".to_string(), ..EmailAccount::default() }
}

fn draft(to: Vec<&str>, cc: Vec<&str>, bcc: Vec<&str>) -> Email {
    Email {
        id: String::new(),
        from: "me@example.com".to_string(),
        to: to.into_iter().map(String::from).collect(),
        cc: cc.into_iter().map(String::from).collect(),
        bcc: bcc.into_iter().map(String::from).collect(),
        subject: "Hello".to_string(),
        date: String::new(),
        body: "Body text".to_string(),
        attachments: vec![],
        status: EmailStatus::Draft,
    }
}

#[test]
fn valid_message_builds() {
    let mut e = draft(vec!["you@example.com"], vec!["Cee <c@example.com>"], vec![]);
    e.attachments.push(Attachment {
        filename: "a.pdf".to_string(),
        content_type: "application/pdf".to_string(),
        data: b"%PDF-".to_vec(),
    });
    let m = build_message(&account(), &e, AT).expect("message should build");
    let text = String::from_utf8_lossy(&m.message().formatted()).to_string();
    assert!(text.contains("Subject: Hello"));
    assert!(text.contains("a.pdf"));
    assert!(text.contains("Body text"));
    assert!(text.contains("Date: Tue, 14 Nov 2023 22:13:20"));
}

#[test]
fn message_dated_now_builds() {
    let e = draft(vec!["you@example.com"], vec![], vec![]);
    assert!(build_message_now(&account(), &e).is_ok());
}

#[test]
fn first_invalid_recipient_is_reported() {
    let e = draft(vec!["ok@example.com", "not an address", "also bad"], vec![], vec![]);
    assert_eq!(build_message(&account(), &e, AT).err(), Some(SendError::AddressParse("not an address".to_string())));
}

#[test]
fn invalid_cc_is_reported_after_valid_to() {
    let e = draft(vec!["ok@example.com"], vec!["broken@"], vec![]);
    assert_eq!(build_message(&account(), &e, AT).err(), Some(SendError::AddressParse("broken@".to_string())));
}

#[test]
fn invalid_sender_is_reported_first() {
    let acc = EmailAccount { address: "nobody".to_string(), ..EmailAccount::default() };
    let e = draft(vec!["bad recipient"], vec![], vec![]);
    assert_eq!(build_message(&acc, &e, AT).err(), Some(SendError::AddressParse("nobody".to_string())));
}

#[test]
fn invalid_content_type_is_reported() {
    let mut e = draft(vec!["you@example.com"], vec![], vec![]);
    e.attachments.push(Attachment { filename: "x".to_string(), content_type: "no type".to_string(), data: vec![1] });
    assert_eq!(build_message(&account(), &e, AT).err(), Some(SendError::InvalidContentType("no type".to_string())));
}

#[test]
fn message_without_recipient_is_refused() {
    let e = draft(vec![], vec![], vec![]);
    assert_eq!(build_message(&account(), &e, AT).err(), Some(SendError::NoRecipient));
}

#[test]
fn bcc_only_message_builds() {
    let e = draft(vec![], vec![], vec!["hidden@example.com"]);
    assert!(build_message(&account(), &e, AT).is_ok());
}

#[test]
fn refused_credentials_are_auth_failures() {
    assert_eq!(delivery_failure(Some(535), "no".to_string()), SendError::AuthFailure("no".to_string()));
    assert_eq!(delivery_failure(Some(530), "x".to_string()), SendError::AuthFailure("x".to_string()));
    assert_eq!(delivery_failure(Some(554), "rejected".to_string()), SendError::TransportFailure("rejected".to_string()));
    assert_eq!(delivery_failure(None, "io".to_string()), SendError::TransportFailure("io".to_string()));
}

#[test]
fn status_after_delivery() {
    assert_eq!(delivery_status(&Ok(())), EmailStatus::Sent);
    assert_eq!(
        delivery_status(&Err(SendError::AddressParse("x".to_string()))),
        EmailStatus::Failed("invalid address: x".to_string())
    );
    assert_eq!(delivery_status(&Err(SendError::NoRecipient)), EmailStatus::Failed("no recipient".to_string()));
}
