//! Handing an outgoing message to `lettre`. A `Draft` is only made by
//! `start`, from the headers it holds; a `Body` only by `text_body`,
//! `mixed_body` and `with_attachment`, from the plain model it holds; both
//! are consumed by `finish`, whose `MimeMail` keeps the two models beside
//! what `lettre` built from them.

use vstd::prelude::*;

use lettre::message::header::ContentType;
use lettre::message::{Attachment, Mailbox, MessageBuilder, MultiPart, SinglePart};
use lettre::Message;

use super::mime_message::{content_type_parses, mailboxes_parse, MailHeaders, MailHeadersView};

verus! {

#[verifier::external_type_specification]
#[verifier::external_body]
pub struct ExMessageBuilder(MessageBuilder);

#[verifier::external_type_specification]
#[verifier::external_body]
pub struct ExMultiPart(MultiPart);

/// A `lettre` message builder, with the headers it was given.
pub struct Draft {
    builder: MessageBuilder,
    headers: MailHeaders,
}

impl Draft {
    /// The headers the builder holds.
    pub closed spec fn headers(&self) -> MailHeadersView {
        self.headers@
    }
}

// ─── The body ────────────────────────────────────────────────────────────────

/// An attachment as handed to `lettre`: its file name, content type and data.
#[derive(Debug, Clone)]
pub struct AttachmentModel {
    pub filename: String,
    pub content_type: String,
    pub data: Vec<u8>,
}

pub struct AttachmentModelView {
    pub filename: Seq<char>,
    pub content_type: Seq<char>,
    pub data: Seq<u8>,
}

impl View for AttachmentModel {
    type V = AttachmentModelView;

    open spec fn view(&self) -> AttachmentModelView {
        AttachmentModelView { filename: self.filename@, content_type: self.content_type@, data: self.data@ }
    }
}

/// A body as handed to `lettre`: whether it is multipart/mixed, its text,
/// and the attachments that follow the text part of a multipart body.
#[derive(Debug, Clone)]
pub struct BodyModel {
    pub multipart: bool,
    pub text: String,
    pub attachments: Vec<AttachmentModel>,
}

pub struct BodyModelView {
    pub multipart: bool,
    pub text: Seq<char>,
    pub attachments: Seq<AttachmentModelView>,
}

impl View for BodyModel {
    type V = BodyModelView;

    open spec fn view(&self) -> BodyModelView {
        BodyModelView {
            multipart: self.multipart,
            text: self.text@,
            attachments: self.attachments@.map_values(|a: AttachmentModel| a@),
        }
    }
}

/// The `lettre` form of a body.
enum BodyParts {
    Text(String),
    Mixed(MultiPart),
}

/// A body in `lettre`'s form, with the model it was built from.
pub struct Body {
    parts: BodyParts,
    model: BodyModel,
}

impl Body {
    /// The model the body was built from.
    pub closed spec fn model(&self) -> BodyModelView {
        self.model@
    }
}

/// A plain-text body holding `text` (handed to `MessageBuilder::body`).
pub fn text_body(text: String) -> (r: Body)
    ensures
        r.model() == (BodyModelView { multipart: false, text: text@, attachments: seq![] }),
{
    let attachments: Vec<AttachmentModel> = Vec::new();
    let model = BodyModel { multipart: false, text: text.clone(), attachments };
    let r = Body { parts: BodyParts::Text(text), model };
    assert(r.model().attachments =~= Seq::<AttachmentModelView>::empty());
    r
}

/// A multipart/mixed body whose first part is `text` as `text/plain;
/// charset=utf-8` (`MultiPart::mixed`, `SinglePart::builder`,
/// `ContentType::TEXT_PLAIN`).
#[verifier::external_body]
pub fn mixed_body(text: String) -> (r: Body)
    ensures
        r.model() == (BodyModelView { multipart: true, text: text@, attachments: seq![] }),
{
    let part = SinglePart::builder().header(ContentType::TEXT_PLAIN).body(text.clone());
    let parts = BodyParts::Mixed(MultiPart::mixed().singlepart(part));
    Body { parts, model: BodyModel { multipart: true, text, attachments: vec![] } }
}

/// `b` with attachment `a` appended as a part
/// (`Attachment::new(filename).body(data, content_type)`, `singlepart`),
/// its content type parsed from its text (`ContentType::parse`); none when
/// that text does not parse.
#[verifier::external_body]
pub fn with_attachment(b: Body, a: AttachmentModel) -> (r: Option<Body>)
    requires
        b.model().multipart,
    ensures
        r is Some <==> content_type_parses(a@.content_type),
        r matches Some(n) ==> n.model() == (BodyModelView {
            attachments: b.model().attachments.push(a@),
            ..b.model()
        }),
{
    let ct = ContentType::parse(&a.content_type).ok()?;
    let part = Attachment::new(a.filename.clone()).body(a.data.clone(), ct);
    let Body { parts, mut model } = b;
    let parts = match parts { BodyParts::Mixed(m) => BodyParts::Mixed(m.singlepart(part)), t => t };
    model.attachments.push(a);
    Some(Body { parts, model })
}

// ─── The message ─────────────────────────────────────────────────────────────

/// A built message as the SMTP transport sends it: its envelope (sender and
/// recipients) and formatted RFC 5322 bytes, with the headers and the body
/// it was built from.
pub struct MimeMail {
    envelope: lettre::address::Envelope,
    formatted: Vec<u8>,
    headers: MailHeaders,
    body: BodyModel,
}

impl MimeMail {
    /// The headers the message was built from.
    pub closed spec fn header_model(&self) -> MailHeadersView {
        self.headers@
    }

    /// The body the message was built from.
    pub closed spec fn body_model(&self) -> BodyModelView {
        self.body@
    }

    /// The envelope: the sender and the recipients.
    pub fn envelope(&self) -> &lettre::address::Envelope {
        &self.envelope
    }

    /// The formatted RFC 5322 bytes.
    pub fn formatted(&self) -> &Vec<u8> {
        &self.formatted
    }

    /// The headers the message was built from.
    pub fn headers(&self) -> (r: &MailHeaders)
        ensures
            r@ == self.header_model(),
    {
        &self.headers
    }

    /// The body the message was built from.
    pub fn body(&self) -> (r: &BodyModel)
        ensures
            r@ == self.body_model(),
    {
        &self.body
    }
}

/// `Message::builder` given the sender's mailbox and the subject, then the
/// To, Cc and Bcc mailboxes, with each mailbox parsed from its text in `h`
/// (`str::parse::<Mailbox>`, the first refusal given as its text), then
/// In-Reply-To and References when present. Mailboxes that parse are not
/// refused.
#[verifier::external_body]
pub fn start(h: MailHeaders) -> (r: Result<Draft, String>)
    ensures
        mailboxes_parse(h@) ==> r is Ok,
        r matches Ok(d) ==> d.headers() == h@,
{
    let mb = |t: &String| t.parse::<Mailbox>().map_err(|e| e.to_string());
    let mut b = Message::builder().from(mb(&h.from)?).subject(h.subject.clone());
    for t in &h.to { b = b.to(mb(t)?); }
    for t in &h.cc { b = b.cc(mb(t)?); }
    for t in &h.bcc { b = b.bcc(mb(t)?); }
    for v in &h.in_reply_to { b = b.in_reply_to(v.clone()); }
    for v in &h.references { b = b.references(v.clone()); }
    Ok(Draft { builder: b, headers: h })
}

/// The message of `d` with its Message-ID (`MessageBuilder::message_id`)
/// and body `body` (`MessageBuilder::body` or `multipart`), as its envelope
/// and formatted bytes with its headers and body models; the error as its
/// text. `lettre` refuses a message only for a missing or doubled sender or
/// for having no recipient (`MessageBuilder::build`, `Envelope::new`); a
/// draft has one sender, so it is built exactly when it has a recipient.
/// The formatted bytes, which carry the current Date, are not stated.
#[verifier::external_body]
pub fn finish(d: Draft, body: Body) -> (r: Result<MimeMail, String>)
    ensures
        r is Ok <==> d.headers().to.len() + d.headers().cc.len() + d.headers().bcc.len() > 0,
        r matches Ok(m) ==> m.header_model() == d.headers() && m.body_model() == body.model(),
{
    let b = d.builder.message_id(Some(d.headers.message_id.clone()));
    let m = match body.parts { BodyParts::Text(t) => b.body(t), BodyParts::Mixed(p) => b.multipart(p) };
    let m = m.map_err(|e| e.to_string())?;
    let (envelope, formatted) = (m.envelope().clone(), m.formatted());
    Ok(MimeMail { envelope, formatted, headers: d.headers, body: body.model })
}

} // verus!
