//! Decoded MIME trees and the selection of a message body and its attachments.

use vstd::prelude::*;
use crate::model::{Attachment, AttachmentModel, attachments_view, strings_view};
use crate::text::{opt_text, eq_ignoring_ascii_case, equal_ignoring_ascii_case, is_prefix, starts_with_text, text_equal};

verus! {

/// A header line or a content-type parameter: its key and its decoded value.
pub struct Field {
    pub key: String,
    pub value: String,
}

/// One node of a decoded MIME tree, as plain values.
pub struct MimePart {
    /// The media type, such as `text/plain` or `multipart/mixed`.
    pub mimetype: String,
    /// Content-type parameters, keys in lower case.
    pub params: Vec<Field>,
    /// Header lines in message order, values decoded.
    pub headers: Vec<Field>,
    /// The body decoded to text, when its transfer encoding and charset allow.
    pub text: Option<String>,
    /// The body with its transfer encoding undone, when that succeeds.
    pub raw: Option<Vec<u8>>,
    /// The nested parts of a multipart node.
    pub subparts: Vec<MimePart>,
}

#[verifier::external_type_specification]
#[verifier::external_body]
pub struct ExParsedMail<'a>(mailparse::ParsedMail<'a>);

/// What `mailparse::parse_mail` makes of a raw message, as a [`MimePart`]
/// tree; `None` when it reports an error.
pub uninterp spec fn mime_tree_of(raw: Seq<u8>) -> Option<MimePart>;

/// Relies on `mailparse`'s accessors of a parsed part: content type and its
/// parameters, header keys and decoded values, `get_body` and
/// `get_body_raw`, and the nested parts.
#[verifier::external_body]
fn mime_part_of(p: &mailparse::ParsedMail<'_>) -> (r: MimePart) {
    MimePart {
        mimetype: p.ctype.mimetype.clone(),
        params: p.ctype.params.iter().map(|(k, v)| Field { key: k.clone(), value: v.clone() }).collect(),
        headers: p.headers.iter().map(|h| Field { key: h.get_key(), value: h.get_value() }).collect(),
        text: p.get_body().ok(),
        raw: p.get_body_raw().ok(),
        subparts: p.subparts.iter().map(mime_part_of).collect(),
    }
}

/// Relies on `mailparse::parse_mail`, which decodes a raw message into its
/// headers, content type and nested parts; the result depends on the bytes
/// alone.
#[verifier::external_body]
pub(crate) fn parse_message(raw: &[u8]) -> (r: Option<MimePart>)
    ensures
        r == mime_tree_of(raw@),
{
    mailparse::parse_mail(raw).ok().map(|m| mime_part_of(&m))
}

/// Label of an attachment whose part names no file.
pub const UNNAMED_ATTACHMENT: &'static str = "未命名附件";

/// Header text used when a message has no `From` header.
pub const UNKNOWN_SENDER: &'static str = "未知发件人";

/// Header text used when a message has no `Subject` header.
pub const NO_SUBJECT: &'static str = "无主题";

/// Header text used when a message has no `Date` header.
pub const UNKNOWN_DATE: &'static str = "未知日期";

/// A field key selects a field: exactly, or up to ASCII case.
pub open spec fn key_matches(k: Seq<char>, key: Seq<char>, fold_case: bool) -> bool {
    if fold_case {
        eq_ignoring_ascii_case(k, key)
    } else {
        k == key
    }
}

/// The value of the first field whose key matches.
pub open spec fn field_lookup(fields: Seq<Field>, key: Seq<char>, fold_case: bool) -> Option<Seq<char>>
    decreases fields.len(),
{
    if fields.len() == 0 {
        None
    } else {
        match field_lookup(fields.drop_last(), key, fold_case) {
            Some(v) => Some(v),
            None => if key_matches(fields.last().key@, key, fold_case) {
                Some(fields.last().value@)
            } else {
                None
            },
        }
    }
}

/// The values of all fields whose key matches ASCII case aside, in order.
pub open spec fn header_values(fields: Seq<Field>, key: Seq<char>) -> Seq<Seq<char>>
    decreases fields.len(),
{
    if fields.len() == 0 {
        Seq::empty()
    } else {
        let init = header_values(fields.drop_last(), key);
        if eq_ignoring_ascii_case(fields.last().key@, key) {
            init.push(fields.last().value@)
        } else {
            init
        }
    }
}

/// The value of the first matching field, exactly or up to ASCII case.
pub fn first_field_value(fields: &Vec<Field>, key: &str, fold_case: bool) -> (r: Option<String>)
    ensures
        opt_text(r) == field_lookup(fields@, key@, fold_case),
{
    let mut i: usize = 0;
    while i < fields.len()
        invariant
            i <= fields.len(),
            field_lookup(fields@.subrange(0, i as int), key@, fold_case) is None,
        decreases fields.len() - i,
    {
        let f = &fields[i];
        let hit = if fold_case {
            equal_ignoring_ascii_case(f.key.as_str(), key)
        } else {
            text_equal(f.key.as_str(), key)
        };
        assert(fields@.subrange(0, i + 1).drop_last() =~= fields@.subrange(0, i as int));
        if hit {
            proof {
                lemma_lookup_prefix(fields@, key@, fold_case, i + 1);
            }
            return Some(f.value.clone());
        }
        i = i + 1;
    }
    assert(fields@.subrange(0, fields@.len() as int) =~= fields@);
    None
}

/// A match in a prefix is the match of the whole list.
proof fn lemma_lookup_prefix(fields: Seq<Field>, key: Seq<char>, fold_case: bool, n: int)
    requires
        0 <= n <= fields.len(),
        field_lookup(fields.subrange(0, n), key, fold_case) is Some,
    ensures
        field_lookup(fields, key, fold_case) == field_lookup(fields.subrange(0, n), key, fold_case),
    decreases fields.len() - n,
{
    if n < fields.len() {
        assert(fields.subrange(0, n + 1).drop_last() =~= fields.subrange(0, n));
        lemma_lookup_prefix(fields, key, fold_case, n + 1);
    } else {
        assert(fields.subrange(0, n) =~= fields);
    }
}

/// The values of all header fields whose key matches ASCII case aside.
pub fn all_header_values(fields: &Vec<Field>, key: &str) -> (r: Vec<String>)
    ensures
        strings_view(r@) == header_values(fields@, key@),
{
    let mut r: Vec<String> = Vec::new();
    let mut i: usize = 0;
    while i < fields.len()
        invariant
            i <= fields.len(),
            strings_view(r@) == header_values(fields@.subrange(0, i as int), key@),
        decreases fields.len() - i,
    {
        assert(fields@.subrange(0, i + 1).drop_last() =~= fields@.subrange(0, i as int));
        if equal_ignoring_ascii_case(fields[i].key.as_str(), key) {
            let ghost before = r@;
            r.push(fields[i].value.clone());
            assert(strings_view(r@) =~= strings_view(before).push(fields@[i as int].value@));
        }
        i = i + 1;
    }
    assert(fields@.subrange(0, fields@.len() as int) =~= fields@);
    r
}

/// The body and attachments gathered while walking the parts of a
/// multipart node; `plain` records that the body came from a `text/plain`
/// part.
pub struct BodyScan {
    pub body: Seq<char>,
    pub plain: bool,
    pub attachments: Seq<AttachmentModel>,
}

/// The file name of a part: its `name` parameter, else its `filename`
/// parameter, else a fixed label.
pub open spec fn attachment_name(p: MimePart) -> Seq<char> {
    match field_lookup(p.params@, "name"@, false) {
        Some(v) => v,
        None => match field_lookup(p.params@, "filename"@, false) {
            Some(v) => v,
            None => UNNAMED_ATTACHMENT@,
        },
    }
}

/// One step of the walk over the parts of a multipart node; `inner` is what
/// the walk of `sub` itself yields.
pub open spec fn scan_step(acc: BodyScan, sub: MimePart, inner: (Seq<char>, Seq<AttachmentModel>)) -> BodyScan {
    if sub.mimetype@ == "text/plain"@ {
        match sub.text {
            Some(t) => BodyScan { body: t@, plain: true, attachments: acc.attachments },
            None => acc,
        }
    } else if sub.mimetype@ == "text/html"@ {
        match sub.text {
            Some(t) => if acc.plain {
                acc
            } else {
                BodyScan { body: t@, plain: false, attachments: acc.attachments }
            },
            None => acc,
        }
    } else if !is_prefix("multipart/"@, sub.mimetype@) {
        match sub.raw {
            Some(d) => BodyScan {
                body: acc.body,
                plain: acc.plain,
                attachments: acc.attachments.push(
                    AttachmentModel { filename: attachment_name(sub), content_type: sub.mimetype@, data: d@ },
                ),
            },
            None => acc,
        }
    } else {
        BodyScan {
            body: if acc.body.len() == 0 { inner.0 } else { acc.body },
            plain: acc.plain,
            attachments: acc.attachments + inner.1,
        }
    }
}

/// The walk over the first `n` parts of `p`.
pub open spec fn scan_parts(p: MimePart, n: int) -> BodyScan
    decreases p, n,
{
    if n <= 0 || n > p.subparts@.len() {
        BodyScan { body: Seq::empty(), plain: false, attachments: Seq::empty() }
    } else {
        let sub = p.subparts@[n - 1];
        scan_step(scan_parts(p, n - 1), sub, body_and_attachments(sub))
    }
}

/// The body and the attachments of a MIME tree: a part that is not
/// multipart gives its own text and no attachment; a multipart node gives
/// the last `text/plain` part, else the last `text/html` part, with the body
/// of a nested multipart filling a body that is still empty, and the
/// attachments of all non-text leaves in order, nested ones included.
pub open spec fn body_and_attachments(p: MimePart) -> (Seq<char>, Seq<AttachmentModel>)
    decreases p, p.subparts@.len() + 1,
{
    if is_prefix("multipart/"@, p.mimetype@) {
        let s = scan_parts(p, p.subparts@.len() as int);
        (s.body, s.attachments)
    } else {
        (
            match p.text {
                Some(t) => t@,
                None => Seq::empty(),
            },
            Seq::empty(),
        )
    }
}

/// The name of the attachment that part `p` yields.
fn attachment_name_of(p: &MimePart) -> (r: String)
    ensures
        r@ == attachment_name(*p),
{
    match first_field_value(&p.params, "name", false) {
        Some(v) => v,
        None => match first_field_value(&p.params, "filename", false) {
            Some(v) => v,
            None => String::from_str(UNNAMED_ATTACHMENT),
        },
    }
}

/// Selects the body text of a decoded message and gathers its attachments.
pub fn extract_body_and_attachments(parsed: &MimePart) -> (r: (String, Vec<Attachment>))
    ensures
        (r.0@, attachments_view(r.1@)) == body_and_attachments(*parsed),
    decreases parsed,
{
    if !starts_with_text(parsed.mimetype.as_str(), "multipart/") {
        let body = match &parsed.text {
            Some(t) => t.clone(),
            None => String::new(),
        };
        proof {
            assert(attachments_view(Seq::<Attachment>::empty()) =~= Seq::<AttachmentModel>::empty());
        }
        return (body, Vec::new());
    }
    let mut body = String::new();
    let mut plain = false;
    let mut attachments: Vec<Attachment> = Vec::new();
    let mut i: usize = 0;
    proof {
        assert(attachments_view(attachments@) =~= Seq::<AttachmentModel>::empty());
    }
    while i < parsed.subparts.len()
        invariant
            i <= parsed.subparts@.len(),
            is_prefix("multipart/"@, parsed.mimetype@),
            body@ == scan_parts(*parsed, i as int).body,
            plain == scan_parts(*parsed, i as int).plain,
            attachments_view(attachments@) == scan_parts(*parsed, i as int).attachments,
        decreases parsed.subparts@.len() - i,
    {
        let sub = &parsed.subparts[i];
        let ghost acc = scan_parts(*parsed, i as int);
        let ghost before = attachments@;
        if text_equal(sub.mimetype.as_str(), "text/plain") {
            if let Some(t) = &sub.text {
                body = t.clone();
                plain = true;
            }
        } else if text_equal(sub.mimetype.as_str(), "text/html") {
            if let Some(t) = &sub.text {
                if !plain {
                    body = t.clone();
                }
            }
        } else if !starts_with_text(sub.mimetype.as_str(), "multipart/") {
            if let Some(d) = &sub.raw {
                let a = Attachment {
                    filename: attachment_name_of(sub),
                    content_type: sub.mimetype.clone(),
                    data: d.clone(),
                };
                attachments.push(a);
                assert(attachments_view(attachments@) =~= attachments_view(before).push(a@));
            }
        } else {
            let (inner_body, inner_attachments) = extract_body_and_attachments(sub);
            if body.unicode_len() == 0 {
                body = inner_body;
            }
            let ghost mid = attachments@;
            let mut j: usize = 0;
            while j < inner_attachments.len()
                invariant
                    j <= inner_attachments@.len(),
                    attachments_view(attachments@) == attachments_view(mid) + attachments_view(
                        inner_attachments@.subrange(0, j as int),
                    ),
                decreases inner_attachments@.len() - j,
            {
                let ghost prev = attachments@;
                attachments.push(inner_attachments[j].duplicate());
                assert(attachments_view(attachments@) =~= attachments_view(prev).push(inner_attachments@[j as int]@));
                assert(attachments_view(inner_attachments@.subrange(0, j + 1)) =~= attachments_view(
                    inner_attachments@.subrange(0, j as int),
                ).push(inner_attachments@[j as int]@));
                j = j + 1;
            }
            assert(inner_attachments@.subrange(0, inner_attachments@.len() as int) =~= inner_attachments@);
        }
        i = i + 1;
    }
    (body, attachments)
}

/// The text of the last `text/plain` part with a decodable body among the
/// first `n` parts of `p`.
pub open spec fn last_plain_text(p: MimePart, n: int) -> Option<Seq<char>>
    decreases n,
{
    if n <= 0 || n > p.subparts@.len() {
        None
    } else {
        let sub = p.subparts@[n - 1];
        if sub.mimetype@ == "text/plain"@ && sub.text is Some {
            Some(sub.text->0@)
        } else {
            last_plain_text(p, n - 1)
        }
    }
}

proof fn lemma_scan_plain(p: MimePart, n: int)
    requires
        0 <= n <= p.subparts@.len(),
    ensures
        scan_parts(p, n).plain <==> last_plain_text(p, n) is Some,
        last_plain_text(p, n) is Some && last_plain_text(p, n)->0.len() > 0 ==> scan_parts(p, n).body == last_plain_text(p, n)->0,
    decreases n,
{
    if n > 0 {
        lemma_scan_plain(p, n - 1);
    }
}

/// In a multipart message a `text/plain` part outranks everything else: the
/// body is the text of the last such part that decodes, whatever `text/html`
/// or nested parts come before or after it, provided that text is not empty
/// (an empty body is filled by a nested multipart that follows).
pub proof fn lemma_plain_text_preferred(p: MimePart)
    requires
        is_prefix("multipart/"@, p.mimetype@),
        last_plain_text(p, p.subparts@.len() as int) is Some,
        last_plain_text(p, p.subparts@.len() as int)->0.len() > 0,
    ensures
        body_and_attachments(p).0 == last_plain_text(p, p.subparts@.len() as int)->0,
{
    lemma_scan_plain(p, p.subparts@.len() as int);
}

/// The attachment that leaf `sub` yields when its body decodes.
pub open spec fn leaf_attachment(sub: MimePart) -> AttachmentModel {
    AttachmentModel { filename: attachment_name(sub), content_type: sub.mimetype@, data: sub.raw->0@ }
}

/// A part that the walk treats as a text body candidate.
pub open spec fn is_text_part(sub: MimePart) -> bool {
    sub.mimetype@ == "text/plain"@ || sub.mimetype@ == "text/html"@
}

proof fn lemma_scan_single_leaf(p: MimePart, k: int, n: int)
    requires
        0 <= k < p.subparts@.len(),
        0 <= n <= p.subparts@.len(),
        p.subparts@[k].raw is Some,
        !is_text_part(p.subparts@[k]),
        !is_prefix("multipart/"@, p.subparts@[k].mimetype@),
        forall|j: int| 0 <= j < p.subparts@.len() && j != k ==> is_text_part(#[trigger] p.subparts@[j]),
    ensures
        scan_parts(p, n).attachments == if n > k {
            seq![leaf_attachment(p.subparts@[k])]
        } else {
            Seq::<AttachmentModel>::empty()
        },
    decreases n,
{
    if n > 0 {
        lemma_scan_single_leaf(p, k, n - 1);
        let sub = p.subparts@[n - 1];
        if n - 1 == k {
            assert(Seq::<AttachmentModel>::empty().push(leaf_attachment(sub)) =~= seq![leaf_attachment(sub)]);
        } else {
            assert(is_text_part(sub));
        }
    }
}

/// A multipart message whose parts are text parts and one other leaf yields
/// exactly one attachment: that leaf's file name, declared content type and
/// decoded bytes, whatever the text parts hold.
pub proof fn lemma_single_attachment(p: MimePart, k: int)
    requires
        is_prefix("multipart/"@, p.mimetype@),
        0 <= k < p.subparts@.len(),
        p.subparts@[k].raw is Some,
        !is_text_part(p.subparts@[k]),
        !is_prefix("multipart/"@, p.subparts@[k].mimetype@),
        forall|j: int| 0 <= j < p.subparts@.len() && j != k ==> is_text_part(#[trigger] p.subparts@[j]),
    ensures
        body_and_attachments(p).1 == seq![leaf_attachment(p.subparts@[k])],
{
    lemma_scan_single_leaf(p, k, p.subparts@.len() as int);
}

/// The parts of a list that are not `text/plain` or `text/html`, in order.
pub open spec fn non_text_parts(parts: Seq<MimePart>) -> Seq<MimePart>
    decreases parts.len(),
{
    if parts.len() == 0 {
        Seq::empty()
    } else {
        let init = non_text_parts(parts.drop_last());
        if is_text_part(parts.last()) {
            init
        } else {
            init.push(parts.last())
        }
    }
}

/// The attachments that a list of sibling parts yields, read without
/// looking at any text part.
pub open spec fn parts_attachments(parts: Seq<MimePart>) -> Seq<AttachmentModel>
    decreases parts.len(),
{
    if parts.len() == 0 {
        Seq::empty()
    } else {
        let init = parts_attachments(parts.drop_last());
        let sub = parts.last();
        if is_text_part(sub) {
            init
        } else if !is_prefix("multipart/"@, sub.mimetype@) {
            match sub.raw {
                Some(_) => init.push(leaf_attachment(sub)),
                None => init,
            }
        } else {
            init + body_and_attachments(sub).1
        }
    }
}

proof fn lemma_scan_attachments(p: MimePart, n: int)
    requires
        0 <= n <= p.subparts@.len(),
    ensures
        scan_parts(p, n).attachments == parts_attachments(p.subparts@.subrange(0, n)),
    decreases n,
{
    if n > 0 {
        lemma_scan_attachments(p, n - 1);
        assert(p.subparts@.subrange(0, n).drop_last() =~= p.subparts@.subrange(0, n - 1));
    } else {
        assert(p.subparts@.subrange(0, 0) =~= Seq::<MimePart>::empty());
    }
}

proof fn lemma_attachments_skip_text(parts: Seq<MimePart>)
    ensures
        parts_attachments(parts) == parts_attachments(non_text_parts(parts)),
    decreases parts.len(),
{
    if parts.len() > 0 {
        lemma_attachments_skip_text(parts.drop_last());
        let init = non_text_parts(parts.drop_last());
        if !is_text_part(parts.last()) {
            assert(init.push(parts.last()).drop_last() =~= init);
        }
    }
}

/// Attachments do not depend on the text parts: two multipart messages
/// whose parts other than `text/plain` and `text/html` are the same yield
/// the same attachments, whatever bodies they select.
pub proof fn lemma_attachments_independent_of_text(p: MimePart, q: MimePart)
    requires
        is_prefix("multipart/"@, p.mimetype@),
        is_prefix("multipart/"@, q.mimetype@),
        non_text_parts(p.subparts@) == non_text_parts(q.subparts@),
    ensures
        body_and_attachments(p).1 == body_and_attachments(q).1,
{
    lemma_scan_attachments(p, p.subparts@.len() as int);
    lemma_scan_attachments(q, q.subparts@.len() as int);
    assert(p.subparts@.subrange(0, p.subparts@.len() as int) =~= p.subparts@);
    assert(q.subparts@.subrange(0, q.subparts@.len() as int) =~= q.subparts@);
    lemma_attachments_skip_text(p.subparts@);
    lemma_attachments_skip_text(q.subparts@);
}

} // verus!
