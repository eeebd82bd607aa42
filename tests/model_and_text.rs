use mail_core::model::{Attachment, Email, EmailAccount, EmailStatus};
use mail_core::text::{decimal_string, equal_ignoring_ascii_case, starts_with_text, text_equal, text_less_or_equal};

#[test]
fn default_account_uses_secure_ports() {
    let a = EmailAccount::default();
    assert_eq!(a.imap_port, 993);
    assert_eq!(a.smtp_port, 587);
    assert!(a.use_tls);
    assert_eq!(a.address, "");
    assert_eq!(a.password, "");
    assert_eq!(a.imap_server, "");
    assert_eq!(a.smtp_server, "");
}

#[test]
fn duplicate_keeps_every_field() {
    let e = Email {
        id: "3".to_string(),
        from: "f".to_string(),
        to: vec!["t".to_string()],
        cc: vec!["c".to_string()],
        bcc: vec!["b".to_string()],
        subject: "s".to_string(),
        date: "d".to_string(),
        body: "x".to_string(),
        attachments: vec![Attachment { filename: "n".to_string(), content_type: "a/b".to_string(), data: vec![1, 2] }],
        status: EmailStatus::Failed("why".to_string()),
    };
    assert_eq!(e.duplicate(), e);
}

#[test]
fn decimal_text_of_numbers() {
    assert_eq!(decimal_string(0), "0");
    assert_eq!(decimal_string(9), "9");
    assert_eq!(decimal_string(10), "10");
    assert_eq!(decimal_string(12345), "12345");
    assert_eq!(decimal_string(u32::MAX), "4294967295");
}

#[test]
fn text_comparisons() {
    assert!(text_equal("abc", "abc"));
    assert!(!text_equal("abc", "abd"));
    assert!(starts_with_text("multipart/mixed", "multipart/"));
    assert!(!starts_with_text("text", "text/"));
    assert!(equal_ignoring_ascii_case("Content-Type", "content-TYPE"));
    assert!(!equal_ignoring_ascii_case("To", "Tx"));
    assert!(text_less_or_equal("2024-01-01", "2024-01-02"));
    assert!(text_less_or_equal("abc", "abc"));
    assert!(text_less_or_equal("ab", "abc"));
    assert!(!text_less_or_equal("b", "abc"));
}
