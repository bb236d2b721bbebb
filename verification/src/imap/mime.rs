//! What the `mail_parser` crate reads out of a raw message, as plain values.
//!
//! Each reader parses the raw bytes with `MessageParser::default()` and
//! returns one field of the parsed message. What a field holds for given
//! bytes is the parser's business: it is named here, one name per field, and
//! the rest of the library states its results over these names.

use vstd::prelude::*;

use crate::models::opt_view;

verus! {

// ─── Addresses ───────────────────────────────────────────────────────────────

/// One address of an address header.
#[derive(Debug, Clone)]
pub struct MailAddr {
    pub name: Option<String>,
    pub address: Option<String>,
}

pub struct MailAddrView {
    pub name: Option<Seq<char>>,
    pub address: Option<Seq<char>>,
}

impl View for MailAddr {
    type V = MailAddrView;

    open spec fn view(&self) -> MailAddrView {
        MailAddrView { name: opt_view(self.name), address: opt_view(self.address) }
    }
}

pub open spec fn mail_addr_views(v: Seq<MailAddr>) -> Seq<MailAddrView> {
    v.map_values(|a: MailAddr| a@)
}

/// A named group of addresses.
#[derive(Debug, Clone)]
pub struct MailGroup {
    pub name: Option<String>,
    pub addresses: Vec<MailAddr>,
}

pub struct MailGroupView {
    pub name: Option<Seq<char>>,
    pub addresses: Seq<MailAddrView>,
}

impl View for MailGroup {
    type V = MailGroupView;

    open spec fn view(&self) -> MailGroupView {
        MailGroupView { name: opt_view(self.name), addresses: mail_addr_views(self.addresses@) }
    }
}

pub open spec fn mail_group_views(v: Seq<MailGroup>) -> Seq<MailGroupView> {
    v.map_values(|g: MailGroup| g@)
}

/// The value of an address header: a list of addresses, or of groups.
#[derive(Debug, Clone)]
pub enum MailAddress {
    List(Vec<MailAddr>),
    Group(Vec<MailGroup>),
}

pub enum MailAddressView {
    List(Seq<MailAddrView>),
    Group(Seq<MailGroupView>),
}

impl View for MailAddress {
    type V = MailAddressView;

    open spec fn view(&self) -> MailAddressView {
        match self {
            MailAddress::List(l) => MailAddressView::List(mail_addr_views(l@)),
            MailAddress::Group(g) => MailAddressView::Group(mail_group_views(g@)),
        }
    }
}

pub open spec fn opt_address_view(a: Option<MailAddress>) -> Option<MailAddressView> {
    match a {
        Some(x) => Some(x@),
        None => None,
    }
}

// ─── Body parts ──────────────────────────────────────────────────────────────

/// The content of a message part.
#[derive(Debug, Clone)]
pub enum PartBody {
    /// A `text/*` part, decoded.
    Text(String),
    /// A `text/html` part.
    Html,
    /// Any other part that is not text.
    Binary(Vec<u8>),
    /// Inline binary data.
    InlineBinary(Vec<u8>),
    /// A nested message.
    Message,
    /// A multipart container.
    Multipart,
}

pub enum PartBodyView {
    Text(Seq<char>),
    Html,
    Binary(Seq<u8>),
    InlineBinary(Seq<u8>),
    Message,
    Multipart,
}

impl View for PartBody {
    type V = PartBodyView;

    open spec fn view(&self) -> PartBodyView {
        match self {
            PartBody::Text(t) => PartBodyView::Text(t@),
            PartBody::Html => PartBodyView::Html,
            PartBody::Binary(b) => PartBodyView::Binary(b@),
            PartBody::InlineBinary(b) => PartBodyView::InlineBinary(b@),
            PartBody::Message => PartBodyView::Message,
            PartBody::Multipart => PartBodyView::Multipart,
        }
    }
}

// ─── Names of what the parser reads ──────────────────────────────────────────

/// Whether the parser accepts `raw` as a message.
pub uninterp spec fn mime_parses(raw: Seq<u8>) -> bool;

/// The Message-ID header's identifier (without angle brackets).
pub uninterp spec fn mime_message_id(raw: Seq<u8>) -> Option<Seq<char>>;

/// The In-Reply-To header as one text.
pub uninterp spec fn mime_in_reply_to(raw: Seq<u8>) -> Option<Seq<char>>;

/// The References header as a list of texts.
pub uninterp spec fn mime_references(raw: Seq<u8>) -> Option<Seq<Seq<char>>>;

/// The From header.
pub uninterp spec fn mime_from(raw: Seq<u8>) -> Option<MailAddressView>;

/// The To header.
pub uninterp spec fn mime_to(raw: Seq<u8>) -> Option<MailAddressView>;

/// The Cc header.
pub uninterp spec fn mime_cc(raw: Seq<u8>) -> Option<MailAddressView>;

/// The decoded Subject header.
pub uninterp spec fn mime_subject(raw: Seq<u8>) -> Option<Seq<char>>;

/// The Date header as seconds since the Unix epoch.
pub uninterp spec fn mime_date(raw: Seq<u8>) -> Option<i64>;

/// The first plain-text body.
pub uninterp spec fn mime_body_text(raw: Seq<u8>) -> Option<Seq<char>>;

/// The first HTML body.
pub uninterp spec fn mime_body_html(raw: Seq<u8>) -> Option<Seq<char>>;

/// How many attachments the parser indexed.
pub uninterp spec fn mime_attachment_count(raw: Seq<u8>) -> usize;

/// The content of attachment number `index`.
pub uninterp spec fn mime_attachment_body(raw: Seq<u8>, index: usize) -> Option<PartBodyView>;

/// The content type of attachment number `index`: its type and subtype.
pub uninterp spec fn mime_attachment_type(raw: Seq<u8>, index: usize) -> Option<
    (Seq<char>, Option<Seq<char>>),
>;

/// The file name of attachment number `index`.
pub uninterp spec fn mime_attachment_name(raw: Seq<u8>, index: usize) -> Option<Seq<char>>;

// ─── Readers ─────────────────────────────────────────────────────────────────

/// Whether `MessageParser::parse` accepts `raw`.
#[verifier::external_body]
pub(crate) fn read_parses(raw: &[u8]) -> (r: bool)
    ensures
        r == mime_parses(raw@),
{
    mail_parser::MessageParser::default().parse(raw).is_some()
}

/// `Message::message_id` of the parsed message.
#[verifier::external_body]
pub(crate) fn read_message_id(raw: &[u8]) -> (r: Option<String>)
    ensures
        opt_view(r) == mime_message_id(raw@),
{
    let m = mail_parser::MessageParser::default().parse(raw)?;
    m.message_id().map(|s| s.to_string())
}

/// `Message::in_reply_to` of the parsed message, read with `HeaderValue::as_text`.
#[verifier::external_body]
pub(crate) fn read_in_reply_to(raw: &[u8]) -> (r: Option<String>)
    ensures
        opt_view(r) == mime_in_reply_to(raw@),
{
    let m = mail_parser::MessageParser::default().parse(raw)?;
    m.in_reply_to().as_text().map(|s| s.to_string())
}

/// The characters of each string of an optional list.
pub open spec fn opt_list_view(o: Option<Vec<String>>) -> Option<Seq<Seq<char>>> {
    match o {
        Some(v) => Some(v@.map_values(|s: String| s@)),
        None => None,
    }
}

/// `Message::references` of the parsed message, read with `HeaderValue::as_text_list`.
#[verifier::external_body]
pub(crate) fn read_references(raw: &[u8]) -> (r: Option<Vec<String>>)
    ensures
        opt_list_view(r) == mime_references(raw@),
{
    let m = mail_parser::MessageParser::default().parse(raw)?;
    m.references().as_text_list().map(|l| l.iter().map(|s| s.to_string()).collect())
}

/// `Message::from` of the parsed message.
#[verifier::external_body]
pub(crate) fn read_from(raw: &[u8]) -> (r: Option<MailAddress>)
    ensures
        opt_address_view(r) == mime_from(raw@),
{
    let m = mail_parser::MessageParser::default().parse(raw)?;
    let one = |a: &mail_parser::Addr| MailAddr {
        name: a.name.as_ref().map(|s| s.to_string()),
        address: a.address.as_ref().map(|s| s.to_string()),
    };
    Some(match m.from()? {
        mail_parser::Address::List(l) => MailAddress::List(l.iter().map(one).collect()),
        mail_parser::Address::Group(g) => MailAddress::Group(g.iter().map(|x| MailGroup {
            name: x.name.as_ref().map(|s| s.to_string()),
            addresses: x.addresses.iter().map(one).collect(),
        }).collect()),
    })
}

/// `Message::to` of the parsed message.
#[verifier::external_body]
pub(crate) fn read_to(raw: &[u8]) -> (r: Option<MailAddress>)
    ensures
        opt_address_view(r) == mime_to(raw@),
{
    let m = mail_parser::MessageParser::default().parse(raw)?;
    let one = |a: &mail_parser::Addr| MailAddr {
        name: a.name.as_ref().map(|s| s.to_string()),
        address: a.address.as_ref().map(|s| s.to_string()),
    };
    Some(match m.to()? {
        mail_parser::Address::List(l) => MailAddress::List(l.iter().map(one).collect()),
        mail_parser::Address::Group(g) => MailAddress::Group(g.iter().map(|x| MailGroup {
            name: x.name.as_ref().map(|s| s.to_string()),
            addresses: x.addresses.iter().map(one).collect(),
        }).collect()),
    })
}

/// `Message::cc` of the parsed message.
#[verifier::external_body]
pub(crate) fn read_cc(raw: &[u8]) -> (r: Option<MailAddress>)
    ensures
        opt_address_view(r) == mime_cc(raw@),
{
    let m = mail_parser::MessageParser::default().parse(raw)?;
    let one = |a: &mail_parser::Addr| MailAddr {
        name: a.name.as_ref().map(|s| s.to_string()),
        address: a.address.as_ref().map(|s| s.to_string()),
    };
    Some(match m.cc()? {
        mail_parser::Address::List(l) => MailAddress::List(l.iter().map(one).collect()),
        mail_parser::Address::Group(g) => MailAddress::Group(g.iter().map(|x| MailGroup {
            name: x.name.as_ref().map(|s| s.to_string()),
            addresses: x.addresses.iter().map(one).collect(),
        }).collect()),
    })
}

/// `Message::subject` of the parsed message.
#[verifier::external_body]
pub(crate) fn read_subject(raw: &[u8]) -> (r: Option<String>)
    ensures
        opt_view(r) == mime_subject(raw@),
{
    let m = mail_parser::MessageParser::default().parse(raw)?;
    m.subject().map(|s| s.to_string())
}

/// `Message::date` of the parsed message, as `DateTime::to_timestamp`.
#[verifier::external_body]
pub(crate) fn read_date(raw: &[u8]) -> (r: Option<i64>)
    ensures
        r == mime_date(raw@),
{
    let m = mail_parser::MessageParser::default().parse(raw)?;
    m.date().map(|d| d.to_timestamp())
}

/// `Message::body_text(0)` of the parsed message.
#[verifier::external_body]
pub(crate) fn read_body_text(raw: &[u8]) -> (r: Option<String>)
    ensures
        opt_view(r) == mime_body_text(raw@),
{
    let m = mail_parser::MessageParser::default().parse(raw)?;
    m.body_text(0).map(|t| t.into_owned())
}

/// `Message::body_html(0)` of the parsed message.
#[verifier::external_body]
pub(crate) fn read_body_html(raw: &[u8]) -> (r: Option<String>)
    ensures
        opt_view(r) == mime_body_html(raw@),
{
    let m = mail_parser::MessageParser::default().parse(raw)?;
    m.body_html(0).map(|t| t.into_owned())
}

/// `Message::attachment_count` of the parsed message (none when it does not
/// parse). `Message::attachment` looks an index up in the same list, so no
/// attachment lies at or past that count.
#[verifier::external_body]
pub(crate) fn read_attachment_count(raw: &[u8]) -> (r: usize)
    ensures
        r == mime_attachment_count(raw@),
        forall|i: usize| i >= r ==> #[trigger] mime_attachment_body(raw@, i) is None,
{
    match mail_parser::MessageParser::default().parse(raw) {
        Some(m) => m.attachment_count(),
        None => 0,
    }
}

/// The body (`MessagePart::body`) of `Message::attachment(index)`.
#[verifier::external_body]
pub(crate) fn read_attachment_body(raw: &[u8], index: usize) -> (r: Option<PartBody>)
    ensures
        match r {
            Some(b) => mime_attachment_body(raw@, index) == Some(b@),
            None => mime_attachment_body(raw@, index) is None,
        },
{
    let m = mail_parser::MessageParser::default().parse(raw)?;
    Some(match &m.attachment(index)?.body {
        mail_parser::PartType::Text(t) => PartBody::Text(t.to_string()),
        mail_parser::PartType::Html(_) => PartBody::Html,
        mail_parser::PartType::Binary(b) => PartBody::Binary(b.to_vec()),
        mail_parser::PartType::InlineBinary(b) => PartBody::InlineBinary(b.to_vec()),
        mail_parser::PartType::Message(_) => PartBody::Message,
        mail_parser::PartType::Multipart(_) => PartBody::Multipart,
    })
}

/// `MimeHeaders::content_type` of `Message::attachment(index)`, as its
/// `ctype` and `subtype`.
#[verifier::external_body]
pub(crate) fn read_attachment_type(raw: &[u8], index: usize) -> (r: Option<(String, Option<String>)>)
    ensures
        match r {
            Some(t) => mime_attachment_type(raw@, index) == Some((t.0@, opt_view(t.1))),
            None => mime_attachment_type(raw@, index) is None,
        },
{
    let m = mail_parser::MessageParser::default().parse(raw)?;
    let ct = mail_parser::MimeHeaders::content_type(m.attachment(index)?)?;
    Some((ct.ctype().to_string(), ct.subtype().map(|s| s.to_string())))
}

/// `MimeHeaders::attachment_name` of `Message::attachment(index)`.
#[verifier::external_body]
pub(crate) fn read_attachment_name(raw: &[u8], index: usize) -> (r: Option<String>)
    ensures
        opt_view(r) == mime_attachment_name(raw@, index),
{
    let m = mail_parser::MessageParser::default().parse(raw)?;
    mail_parser::MimeHeaders::attachment_name(m.attachment(index)?).map(|s| s.to_string())
}

} // verus!
