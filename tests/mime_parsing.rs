use mail_core::fetch::parse_email;
use mail_core::mime::{extract_body_and_attachments, Field, MimePart, UNNAMED_ATTACHMENT};
use mail_core::model::Attachment;

fn decode(raw: &str) -> (String, Vec<Attachment>) {
    let e = parse_email(1, raw.as_bytes()).expect("message should parse");
    (e.body, e.attachments)
}

const ALTERNATIVE: &str = "From: a@example.com\r\n\
Subject: hi\r\n\
Content-Type: multipart/alternative; boundary=\"XX\"\r\n\
\r\n\
--XX\r\n\
Content-Type: text/plain; charset=utf-8\r\n\
\r\n\
plain words\r\n\
--XX\r\n\
Content-Type: text/html; charset=utf-8\r\n\
\r\n\
<p>html words</p>\r\n\
--XX--\r\n";

#[test]
fn plain_text_wins_over_html() {
    let (body, attachments) = decode(ALTERNATIVE);
    assert_eq!(body, "plain words\r\n");
    assert!(attachments.is_empty());
}

#[test]
fn plain_text_wins_when_html_comes_first() {
    let raw = "Content-Type: multipart/alternative; boundary=\"XX\"\r\n\r\n\
--XX\r\nContent-Type: text/html\r\n\r\n<b>html</b>\r\n\
--XX\r\nContent-Type: text/plain\r\n\r\nplain\r\n--XX--\r\n";
    let (body, _) = decode(raw);
    assert_eq!(body, "plain\r\n");
}

#[test]
fn html_used_without_plain_text() {
    let raw = "Content-Type: multipart/alternative; boundary=\"XX\"\r\n\r\n\
--XX\r\nContent-Type: text/html\r\n\r\n<b>only html</b>\r\n--XX--\r\n";
    let (body, _) = decode(raw);
    assert_eq!(body, "<b>only html</b>\r\n");
}

#[test]
fn last_plain_text_part_wins() {
    let raw = "Content-Type: multipart/mixed; boundary=\"XX\"\r\n\r\n\
--XX\r\nContent-Type: text/plain\r\n\r\nfirst\r\n\
--XX\r\nContent-Type: text/plain\r\n\r\nsecond\r\n--XX--\r\n";
    let (body, _) = decode(raw);
    assert_eq!(body, "second\r\n");
}

#[test]
fn flat_message_body_is_used() {
    let raw = "Subject: flat\r\nContent-Type: text/plain\r\n\r\nJust text";
    let (body, attachments) = decode(raw);
    assert_eq!(body, "Just text");
    assert!(attachments.is_empty());
}

#[test]
fn flat_non_text_message_uses_own_body() {
    let raw = "Content-Type: application/octet-stream\r\n\r\nbinary";
    let (body, attachments) = decode(raw);
    assert_eq!(body, "binary");
    assert!(attachments.is_empty());
}

const WITH_PDF: &str = "Content-Type: multipart/mixed; boundary=\"XX\"\r\n\
\r\n\
--XX\r\n\
Content-Type: text/plain\r\n\
\r\n\
see attached\r\n\
--XX\r\n\
Content-Type: application/pdf; filename=\"a.pdf\"\r\n\
Content-Transfer-Encoding: base64\r\n\
\r\n\
JVBERi0=\r\n\
--XX--\r\n";

#[test]
fn one_attachment_is_extracted() {
    let (body, attachments) = decode(WITH_PDF);
    assert_eq!(body, "see attached\r\n");
    assert_eq!(attachments.len(), 1);
    assert_eq!(attachments[0].filename, "a.pdf");
    assert_eq!(attachments[0].content_type, "application/pdf");
    assert_eq!(attachments[0].data, b"%PDF-".to_vec());
}

#[test]
fn attachment_name_parameter_comes_first() {
    let raw = "Content-Type: multipart/mixed; boundary=\"XX\"\r\n\r\n\
--XX\r\nContent-Type: image/png; name=\"n.png\"; filename=\"f.png\"\r\n\r\nPNG\r\n--XX--\r\n";
    let (_, attachments) = decode(raw);
    assert_eq!(attachments.len(), 1);
    assert_eq!(attachments[0].filename, "n.png");
    assert_eq!(attachments[0].data, b"PNG\r\n".to_vec());
}

#[test]
fn unnamed_attachment_gets_label() {
    let raw = "Content-Type: multipart/mixed; boundary=\"XX\"\r\n\r\n\
--XX\r\nContent-Type: application/zip\r\n\r\nZIP\r\n--XX--\r\n";
    let (body, attachments) = decode(raw);
    assert_eq!(body, "");
    assert_eq!(attachments.len(), 1);
    assert_eq!(attachments[0].filename, UNNAMED_ATTACHMENT);
    assert_eq!(attachments[0].content_type, "application/zip");
}

#[test]
fn nested_multipart_is_merged() {
    let raw = "Content-Type: multipart/mixed; boundary=\"OUT\"\r\n\r\n\
--OUT\r\nContent-Type: multipart/alternative; boundary=\"IN\"\r\n\r\n\
--IN\r\nContent-Type: text/plain\r\n\r\ninner text\r\n\
--IN\r\nContent-Type: text/html\r\n\r\n<i>inner</i>\r\n--IN--\r\n\
--OUT\r\nContent-Type: application/pdf; filename=\"b.pdf\"\r\n\r\nPDF\r\n--OUT--\r\n";
    let (body, attachments) = decode(raw);
    assert_eq!(body, "inner text\r\n");
    assert_eq!(attachments.len(), 1);
    assert_eq!(attachments[0].filename, "b.pdf");
}

#[test]
fn nested_body_does_not_replace_set_body() {
    let raw = "Content-Type: multipart/mixed; boundary=\"OUT\"\r\n\r\n\
--OUT\r\nContent-Type: text/plain\r\n\r\nouter text\r\n\
--OUT\r\nContent-Type: multipart/alternative; boundary=\"IN\"\r\n\r\n\
--IN\r\nContent-Type: text/plain\r\n\r\ninner text\r\n--IN--\r\n--OUT--\r\n";
    let (body, _) = decode(raw);
    assert_eq!(body, "outer text\r\n");
}

fn part(mimetype: &str, text: Option<&str>, raw: Option<&[u8]>, params: Vec<(&str, &str)>, subparts: Vec<MimePart>) -> MimePart {
    MimePart {
        mimetype: mimetype.to_string(),
        params: params.into_iter().map(|(k, v)| Field { key: k.to_string(), value: v.to_string() }).collect(),
        headers: vec![],
        text: text.map(String::from),
        raw: raw.map(|b| b.to_vec()),
        subparts,
    }
}

#[test]
fn walk_of_a_built_tree() {
    let tree = part(
        "multipart/mixed",
        None,
        None,
        vec![],
        vec![
            part("text/html", Some("<p>h</p>"), None, vec![], vec![]),
            part("multipart/alternative", None, None, vec![], vec![part("text/plain", Some("inner"), None, vec![], vec![])]),
            part("application/pdf", None, Some(b"PDF"), vec![("filename", "r.pdf")], vec![]),
            part("image/gif", None, None, vec![("name", "lost.gif")], vec![]),
        ],
    );
    let (body, attachments) = extract_body_and_attachments(&tree);
    assert_eq!(body, "<p>h</p>");
    assert_eq!(attachments.len(), 1);
    assert_eq!(attachments[0].filename, "r.pdf");
    assert_eq!(attachments[0].content_type, "application/pdf");
    assert_eq!(attachments[0].data, b"PDF".to_vec());
}

#[test]
fn undecodable_plain_part_is_passed_over() {
    let tree = part(
        "multipart/alternative",
        None,
        None,
        vec![],
        vec![part("text/plain", None, None, vec![], vec![]), part("text/html", Some("html"), None, vec![], vec![])],
    );
    assert_eq!(extract_body_and_attachments(&tree).0, "html");
}

#[test]
fn nested_body_fills_empty_plain_body() {
    let tree = part(
        "multipart/mixed",
        None,
        None,
        vec![],
        vec![
            part("text/plain", Some(""), None, vec![], vec![]),
            part("multipart/alternative", None, None, vec![], vec![part("text/plain", Some("nested"), None, vec![], vec![])]),
        ],
    );
    assert_eq!(extract_body_and_attachments(&tree).0, "nested");
}

#[test]
fn fallback_labels() {
    assert_eq!(UNNAMED_ATTACHMENT, "未命名附件");
}
