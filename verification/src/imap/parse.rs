//! Reading a raw RFC 5322 message into a `ParsedEmail`.

use vstd::prelude::*;

use super::body::{body_cut, clean_body, cut_text, strip_quotes_and_signature};
use super::headers::{extract_raw_headers, header_end, utf8_lossy};
use super::mime::{
    mail_addr_views, mail_group_views, mime_attachment_body, mime_attachment_name,
    mime_attachment_type, mime_body_html, mime_body_text, mime_cc, mime_date, mime_from,
    mime_in_reply_to, mime_message_id, mime_parses, mime_references, mime_subject, mime_to,
    opt_address_view, opt_list_view, read_attachment_body, read_attachment_count,
    read_attachment_name, read_attachment_type, read_body_html, read_body_text, read_cc,
    read_date, read_from, read_in_reply_to, read_message_id, read_parses, read_references,
    read_subject, read_to, MailAddr, MailAddrView, MailAddress, MailAddressView, MailGroupView,
    PartBody, PartBodyView,
};
use crate::db::{first_index, lemma_first_index, lemma_first_index_at};
use crate::error::{AppError, AppResult};
use crate::models::{copy_opt_string, opt_view, owned, recipient_view, recipient_views};
use crate::stamp::{checked_timestamp, chrono_represents, new_uuid_v4, now_utc, UtcTime};
use crate::text::{
    ascii_lowercase, chars_occur_at, chars_occur_at_exec, chars_of, extend_chars, string_of,
    to_ascii_lowercase_chars,
};

verus! {

// ─── Parsed messages ─────────────────────────────────────────────────────────

/// An attachment of a parsed message.
#[derive(Debug, Clone)]
pub struct ParsedAttachment {
    pub filename: Option<String>,
    pub mime_type: String,
    pub size_bytes: usize,
    pub data: Vec<u8>,
}

pub struct ParsedAttachmentView {
    pub filename: Option<Seq<char>>,
    pub mime_type: Seq<char>,
    pub size_bytes: usize,
    pub data: Seq<u8>,
}

impl View for ParsedAttachment {
    type V = ParsedAttachmentView;

    open spec fn view(&self) -> ParsedAttachmentView {
        ParsedAttachmentView {
            filename: opt_view(self.filename),
            mime_type: self.mime_type@,
            size_bytes: self.size_bytes,
            data: self.data@,
        }
    }
}

pub open spec fn parsed_attachment_views(v: Seq<ParsedAttachment>) -> Seq<ParsedAttachmentView> {
    v.map_values(|a: ParsedAttachment| a@)
}

/// Envelope, bodies and attachments read from a raw message.
#[derive(Debug)]
pub struct ParsedEmail {
    pub message_id: String,
    pub in_reply_to: Option<String>,
    pub references: Vec<String>,
    pub from_email: String,
    pub from_name: Option<String>,
    pub to: Vec<(String, Option<String>)>,
    pub cc: Vec<(String, Option<String>)>,
    pub subject: Option<String>,
    pub body_text: Option<String>,
    pub body_html: Option<String>,
    /// When it was sent.
    pub sent_at: UtcTime,
    pub raw_headers: String,
    pub attachments: Vec<ParsedAttachment>,
    /// Whether the message carries a List-Unsubscribe header (a newsletter).
    pub is_newsletter: bool,
}

pub struct ParsedEmailView {
    pub message_id: Seq<char>,
    pub in_reply_to: Option<Seq<char>>,
    pub references: Seq<Seq<char>>,
    pub from_email: Seq<char>,
    pub from_name: Option<Seq<char>>,
    pub to: Seq<(Seq<char>, Option<Seq<char>>)>,
    pub cc: Seq<(Seq<char>, Option<Seq<char>>)>,
    pub subject: Option<Seq<char>>,
    pub body_text: Option<Seq<char>>,
    pub body_html: Option<Seq<char>>,
    pub sent_at: UtcTime,
    pub raw_headers: Seq<char>,
    pub attachments: Seq<ParsedAttachmentView>,
    pub is_newsletter: bool,
}

impl View for ParsedEmail {
    type V = ParsedEmailView;

    open spec fn view(&self) -> ParsedEmailView {
        ParsedEmailView {
            message_id: self.message_id@,
            in_reply_to: opt_view(self.in_reply_to),
            references: self.references@.map_values(|s: String| s@),
            from_email: self.from_email@,
            from_name: opt_view(self.from_name),
            to: recipient_views(self.to@),
            cc: recipient_views(self.cc@),
            subject: opt_view(self.subject),
            body_text: opt_view(self.body_text),
            body_html: opt_view(self.body_html),
            sent_at: self.sent_at,
            raw_headers: self.raw_headers@,
            attachments: parsed_attachment_views(self.attachments@),
            is_newsletter: self.is_newsletter,
        }
    }
}

// ─── Message identifiers ─────────────────────────────────────────────────────

/// `id` in angle brackets, unless it already starts with `<`.
pub open spec fn bracketed(id: Seq<char>) -> Seq<char> {
    if id.len() > 0 && id[0] == '<' {
        id
    } else {
        seq!['<'] + id + seq!['>']
    }
}

/// `id` in angle brackets unless it already starts with `<`.
pub fn bracket_id(id: &str) -> (r: String)
    ensures
        r@ == bracketed(id@),
{
    let v = chars_of(id);
    if v.len() > 0 && v[0] == '<' {
        return string_of(&v);
    }
    let mut out: Vec<char> = vec!['<'];
    extend_chars(&mut out, &v);
    out.push('>');
    assert(out@ =~= seq!['<'] + id@ + seq!['>']);
    string_of(&out)
}

/// The Message-ID recorded for a message: the parsed identifier in angle
/// brackets, or a generated one built from `fresh` when the message has none.
pub open spec fn recorded_message_id(parsed: Option<Seq<char>>, fresh: Seq<char>) -> Seq<char> {
    match parsed {
        Some(id) => seq!['<'] + id + seq!['>'],
        None => seq!['<'] + "generated-"@ + fresh + seq!['>'],
    }
}

// ─── Addresses ───────────────────────────────────────────────────────────────

/// The address recorded when a header names no usable sender.
pub open spec fn unknown_sender() -> Seq<char> {
    "unknown@unknown"@
}

/// An address and its name, with the unknown address standing in for a
/// missing one.
pub open spec fn addr_entry(a: MailAddrView) -> (Seq<char>, Option<Seq<char>>) {
    (
        match a.address {
            Some(e) => e,
            None => unknown_sender(),
        },
        a.name,
    )
}

/// Selects the groups that hold at least one address.
pub open spec fn has_addresses() -> spec_fn(MailGroupView) -> bool {
    |g: MailGroupView| g.addresses.len() > 0
}

/// The first address of a header (the first of the list, or the first of the
/// first group that has one), or the unknown address.
pub open spec fn first_addr(a: Option<MailAddressView>) -> (Seq<char>, Option<Seq<char>>) {
    match a {
        Some(MailAddressView::List(l)) => if l.len() > 0 {
            addr_entry(l[0])
        } else {
            (unknown_sender(), None)
        },
        Some(MailAddressView::Group(g)) => match first_index(g, has_addresses()) {
            Some(i) => addr_entry(g[i].addresses[0]),
            None => (unknown_sender(), None),
        },
        None => (unknown_sender(), None),
    }
}

/// The addresses of a list that have an address, with their names, in order.
pub open spec fn addr_pairs(s: Seq<MailAddrView>) -> Seq<(Seq<char>, Option<Seq<char>>)>
    decreases s.len(),
{
    if s.len() == 0 {
        seq![]
    } else {
        let rest = addr_pairs(s.drop_last());
        match s.last().address {
            Some(e) => rest.push((e, s.last().name)),
            None => rest,
        }
    }
}

/// The addresses of all groups, group after group.
pub open spec fn group_pairs(g: Seq<MailGroupView>) -> Seq<(Seq<char>, Option<Seq<char>>)>
    decreases g.len(),
{
    if g.len() == 0 {
        seq![]
    } else {
        group_pairs(g.drop_last()) + addr_pairs(g.last().addresses)
    }
}

/// All addresses of a header, with their names.
pub open spec fn address_pairs(a: Option<MailAddressView>) -> Seq<(Seq<char>, Option<Seq<char>>)> {
    match a {
        Some(MailAddressView::List(l)) => addr_pairs(l),
        Some(MailAddressView::Group(g)) => group_pairs(g),
        None => seq![],
    }
}

/// The address and name of `a`, with the unknown address for a missing one.
fn addr_entry_of(a: &MailAddr) -> (r: (String, Option<String>))
    ensures
        recipient_view(r) == addr_entry(a@),
{
    let email = match &a.address {
        Some(e) => e.clone(),
        None => owned("unknown@unknown"),
    };
    (email, copy_opt_string(&a.name))
}

/// The first address of an address header (see `first_addr`).
pub fn extract_first_addr_opt(addr: &Option<MailAddress>) -> (r: (String, Option<String>))
    ensures
        recipient_view(r) == first_addr(opt_address_view(*addr)),
{
    match addr {
        Some(MailAddress::List(list)) => {
            if list.len() > 0 {
                assert(mail_addr_views(list@)[0] == list@[0]@);
                return addr_entry_of(&list[0]);
            }
        },
        Some(MailAddress::Group(groups)) => {
            let ghost gv = mail_group_views(groups@);
            assert(opt_address_view(*addr) == Some(MailAddressView::Group(gv)));
            let mut i: usize = 0;
            while i < groups.len()
                invariant
                    i <= groups.len(),
                    gv == mail_group_views(groups@),
                    opt_address_view(*addr) == Some(MailAddressView::Group(gv)),
                    forall|k: int| 0 <= k < i ==> !has_addresses()(#[trigger] gv[k]),
                decreases groups.len() - i,
            {
                if groups[i].addresses.len() > 0 {
                    proof {
                        lemma_first_index_at(gv, has_addresses(), i as int);
                        assert(gv[i as int] == groups@[i as int]@);
                        assert(gv[i as int].addresses[0] == groups@[i as int].addresses@[0]@);
                    }
                    return addr_entry_of(&groups[i].addresses[0]);
                }
                i = i + 1;
            }
            proof {
                lemma_first_index_at(gv, has_addresses(), i as int);
            }
        },
        None => {},
    }
    (owned("unknown@unknown"), None)
}

/// Appends the addresses of `list` that have an address, with their names.
fn push_addr_pairs(out: &mut Vec<(String, Option<String>)>, list: &Vec<MailAddr>)
    ensures
        recipient_views(final(out)@) == recipient_views(old(out)@) + addr_pairs(
            mail_addr_views(list@),
        ),
{
    let ghost lv = mail_addr_views(list@);
    let mut i: usize = 0;
    while i < list.len()
        invariant
            i <= list.len(),
            lv == mail_addr_views(list@),
            recipient_views(out@) == recipient_views(old(out)@) + addr_pairs(lv.take(i as int)),
        decreases list.len() - i,
    {
        assert(lv.take(i + 1).drop_last() =~= lv.take(i as int));
        assert(lv.take(i + 1).last() == list@[i as int]@);
        if let Some(email) = &list[i].address {
            let ghost before = recipient_views(out@);
            out.push((email.clone(), copy_opt_string(&list[i].name)));
            assert(recipient_views(out@) =~= before.push(recipient_view(out@.last())));
        }
        i = i + 1;
    }
    assert(lv.take(list.len() as int) =~= lv);
}

/// All addresses of an address header that have an address (see `address_pairs`).
pub fn extract_addr_list_opt(addr: &Option<MailAddress>) -> (r: Vec<(String, Option<String>)>)
    ensures
        recipient_views(r@) == address_pairs(opt_address_view(*addr)),
{
    let mut result: Vec<(String, Option<String>)> = Vec::new();
    match addr {
        Some(MailAddress::List(list)) => {
            push_addr_pairs(&mut result, list);
            assert(recipient_views(result@) =~= address_pairs(opt_address_view(*addr)));
        },
        Some(MailAddress::Group(groups)) => {
            let ghost gv = mail_group_views(groups@);
            assert(opt_address_view(*addr) == Some(MailAddressView::Group(gv)));
            let mut i: usize = 0;
            while i < groups.len()
                invariant
                    i <= groups.len(),
                    gv == mail_group_views(groups@),
                    opt_address_view(*addr) == Some(MailAddressView::Group(gv)),
                    recipient_views(result@) == group_pairs(gv.take(i as int)),
                decreases groups.len() - i,
            {
                assert(gv.take(i + 1).drop_last() =~= gv.take(i as int));
                assert(gv.take(i + 1).last() == groups@[i as int]@);
                push_addr_pairs(&mut result, &groups[i].addresses);
                i = i + 1;
            }
            assert(gv.take(groups.len() as int) =~= gv);
        },
        None => {
            assert(recipient_views(result@) =~= Seq::<(Seq<char>, Option<Seq<char>>)>::empty());
        },
    }
    result
}

// ─── Attachments ─────────────────────────────────────────────────────────────

/// The MIME type recorded for an attachment: `type/subtype` of its content
/// type, with `octet-stream` for a missing subtype, or
/// `application/octet-stream` without a content type.
pub open spec fn attachment_mime_type(t: Option<(Seq<char>, Option<Seq<char>>)>) -> Seq<char> {
    match t {
        Some((c, Some(sub))) => c + seq!['/'] + sub,
        Some((c, None)) => c + "/octet-stream"@,
        None => "application/octet-stream"@,
    }
}

/// The bytes kept of an attachment: binary content as it is, text content
/// encoded as UTF-8; other parts are not kept.
pub open spec fn attachment_data(b: PartBodyView) -> Option<Seq<u8>> {
    match b {
        PartBodyView::Binary(d) => Some(d),
        PartBodyView::InlineBinary(d) => Some(d),
        PartBodyView::Text(t) => Some(vstd::utf8::encode_utf8(t)),
        _ => None,
    }
}

/// The attachment recorded for the parser's attachment number `i`, if kept.
pub open spec fn attachment_at(raw: Seq<u8>, i: usize) -> Option<ParsedAttachmentView> {
    match mime_attachment_body(raw, i) {
        Some(b) => match attachment_data(b) {
            Some(d) => Some(
                ParsedAttachmentView {
                    filename: mime_attachment_name(raw, i),
                    mime_type: attachment_mime_type(mime_attachment_type(raw, i)),
                    size_bytes: d.len() as usize,
                    data: d,
                },
            ),
            None => None,
        },
        None => None,
    }
}

/// The attachments recorded for the parser's attachments `0..n`.
pub open spec fn attachments_upto(raw: Seq<u8>, n: int) -> Seq<ParsedAttachmentView>
    decreases n,
{
    if n <= 0 {
        seq![]
    } else {
        let rest = attachments_upto(raw, n - 1);
        match attachment_at(raw, (n - 1) as usize) {
            Some(a) => rest.push(a),
            None => rest,
        }
    }
}

/// `n` is where the parser's attachments end: all before it are present,
/// the one at it is not.
pub open spec fn is_attachments_end(raw: Seq<u8>, n: int) -> bool {
    &&& 0 <= n <= usize::MAX
    &&& forall|j: int| 0 <= j < n ==> (#[trigger] mime_attachment_body(raw, j as usize)) is Some
    &&& mime_attachment_body(raw, n as usize) is None
}

/// Where the parser's attachments end (iteration stops at the first absent one).
pub open spec fn attachments_end(raw: Seq<u8>) -> int {
    choose|n: int| is_attachments_end(raw, n)
}

proof fn lemma_attachments_end(raw: Seq<u8>, n: int)
    requires
        is_attachments_end(raw, n),
    ensures
        attachments_end(raw) == n,
{
    let c = attachments_end(raw);
    assert(is_attachments_end(raw, c));
    if c < n {
        assert(mime_attachment_body(raw, c as usize) is Some);
    } else if n < c {
        assert(mime_attachment_body(raw, n as usize) is Some);
    }
}

/// The recorded MIME type for a parsed content type.
fn mime_type_of(t: &Option<(String, Option<String>)>) -> (r: String)
    ensures
        r@ == attachment_mime_type(match t {
            Some(x) => Some((x.0@, opt_view(x.1))),
            None => None,
        }),
{
    match t {
        Some((c, sub)) => {
            let mut v = chars_of(c.as_str());
            match sub {
                Some(st) => {
                    v.push('/');
                    let w = chars_of(st.as_str());
                    extend_chars(&mut v, &w);
                    assert(v@ =~= c@ + seq!['/'] + st@);
                },
                None => {
                    let w = chars_of("/octet-stream");
                    extend_chars(&mut v, &w);
                },
            }
            string_of(&v)
        },
        None => owned("application/octet-stream"),
    }
}

/// The attachments of a raw message (see `attachment_at`), in the parser's
/// order: binary parts as they are, text parts as UTF-8; other parts are
/// skipped.
pub fn extract_attachments(raw: &[u8]) -> (r: Vec<ParsedAttachment>)
    ensures
        parsed_attachment_views(r@) == attachments_upto(raw@, attachments_end(raw@)),
{
    let count = read_attachment_count(raw);
    let mut out: Vec<ParsedAttachment> = Vec::new();
    let mut i: usize = 0;
    while i < count
        invariant
            i <= count,
            forall|k: usize| k >= count ==> #[trigger] mime_attachment_body(raw@, k) is None,
            forall|j: int| 0 <= j < i ==> (#[trigger] mime_attachment_body(raw@, j as usize)) is Some,
            parsed_attachment_views(out@) == attachments_upto(raw@, i as int),
        decreases count - i,
    {
        match read_attachment_body(raw, i) {
            None => {
                proof {
                    lemma_attachments_end(raw@, i as int);
                }
                return out;
            },
            Some(body) => {
                let data: Option<Vec<u8>> = match body {
                    PartBody::Binary(d) => Some(d),
                    PartBody::InlineBinary(d) => Some(d),
                    PartBody::Text(t) => Some(t.as_str().as_bytes_vec()),
                    _ => None,
                };
                assert(data matches Some(d) ==> attachment_data(body@) == Some(d@));
                assert(data is None ==> attachment_data(body@) is None);
                if let Some(d) = data {
                    let ty = read_attachment_type(raw, i);
                    let mime_type = mime_type_of(&ty);
                    let filename = read_attachment_name(raw, i);
                    let size = d.len();
                    let ghost before = parsed_attachment_views(out@);
                    out.push(ParsedAttachment { filename, mime_type, size_bytes: size, data: d });
                    assert(parsed_attachment_views(out@) =~= before.push(out@.last()@));
                }
            },
        }
        i = i + 1;
    }
    proof {
        lemma_attachments_end(raw@, i as int);
    }
    out
}

// ─── The whole message ───────────────────────────────────────────────────────

/// When a message was sent: its Date header when chrono can represent it,
/// else `now`.
pub open spec fn sent_time(date: Option<i64>, now: UtcTime) -> UtcTime {
    match date {
        Some(ts) => if chrono_represents(ts) {
            UtcTime { secs: ts, nanos: 0 }
        } else {
            now
        },
        None => now,
    }
}

/// The header field name List-Unsubscribe with its colon, in lower case.
pub open spec fn unsubscribe_field() -> Seq<char> {
    "list-unsubscribe:"@
}

/// A List-Unsubscribe field starts at position `i` of the header block `l`
/// (already in lower case): at the start of a line.
pub open spec fn unsubscribe_field_at(l: Seq<char>, i: int) -> bool {
    (i == 0 || (0 < i <= l.len() && l[i - 1] == '\n')) && chars_occur_at(l, unsubscribe_field(), i)
}

/// A newsletter: its header block has a field named List-Unsubscribe (the
/// name in any ASCII case, at the start of a line, followed by its colon).
pub open spec fn mentions_unsubscribe(headers: Seq<char>) -> bool {
    exists|i: int| unsubscribe_field_at(ascii_lowercase(headers), i)
}

/// Whether the lower-cased header block `l` has a List-Unsubscribe field.
fn has_unsubscribe_field(l: &Vec<char>) -> (r: bool)
    ensures
        r == exists|i: int| unsubscribe_field_at(l@, i),
{
    let name = chars_of("list-unsubscribe:");
    proof {
        reveal_strlit("list-unsubscribe:");
    }
    assert(name@ == unsubscribe_field());
    if name.len() > l.len() {
        assert forall|i: int| !unsubscribe_field_at(l@, i) by {}
        return false;
    }
    let last = l.len() - name.len();
    let mut i: usize = 0;
    while i <= last
        invariant
            last + name.len() == l.len(),
            name.len() > 0,
            name@ == unsubscribe_field(),
            i <= last + 1,
            forall|j: int| 0 <= j < i ==> !unsubscribe_field_at(l@, j),
        decreases last + 1 - i,
    {
        if (i == 0 || l[i - 1] == '\n') && chars_occur_at_exec(l, &name, i) {
            assert(unsubscribe_field_at(l@, i as int));
            return true;
        }
        i = i + 1;
    }
    assert forall|j: int| !unsubscribe_field_at(l@, j) by {
        if 0 <= j < i {
        }
    }
    false
}

/// What `parse_email_with` reads out of `raw`, given the identifier `fresh`
/// for a message without a Message-ID and the time `now` for one without a
/// usable Date.
pub open spec fn parsed_email(raw: Seq<u8>, fresh: Seq<char>, now: UtcTime) -> ParsedEmailView {
    let from = first_addr(mime_from(raw));
    let headers = utf8_lossy(raw.take(header_end(raw)));
    ParsedEmailView {
        message_id: recorded_message_id(mime_message_id(raw), fresh),
        in_reply_to: match mime_in_reply_to(raw) {
            Some(s) => Some(bracketed(s)),
            None => None,
        },
        references: match mime_references(raw) {
            Some(l) => l.map_values(|s: Seq<char>| bracketed(s)),
            None => seq![],
        },
        from_email: from.0,
        from_name: from.1,
        to: address_pairs(mime_to(raw)),
        cc: address_pairs(mime_cc(raw)),
        subject: mime_subject(raw),
        body_text: match mime_body_text(raw) {
            Some(t) => Some(clean_body(cut_text(t, body_cut(t)))),
            None => None,
        },
        body_html: mime_body_html(raw),
        sent_at: sent_time(mime_date(raw), now),
        raw_headers: headers,
        attachments: attachments_upto(raw, attachments_end(raw)),
        is_newsletter: mentions_unsubscribe(headers),
    }
}

/// The error for bytes that the parser does not accept as a message.
pub open spec fn is_parse_failure(e: AppError) -> bool {
    e matches AppError::MimeParse(m) && m@ == "failed to parse message"@
}

/// Reads a raw RFC 5322 message (see `parsed_email`). `fresh_id` stands in
/// for a missing Message-ID (as `<generated-fresh_id>`), `now` for a missing
/// or unusable Date.
pub fn parse_email_with(raw: &[u8], fresh_id: &str, now: UtcTime) -> (r: AppResult<ParsedEmail>)
    ensures
        match r {
            Ok(p) => mime_parses(raw@) && p@ == parsed_email(raw@, fresh_id@, now),
            Err(e) => !mime_parses(raw@) && is_parse_failure(e),
        },
{
    if !read_parses(raw) {
        return Err(AppError::MimeParse(owned("failed to parse message")));
    }
    let message_id = match read_message_id(raw) {
        Some(id) => {
            let mut v: Vec<char> = vec!['<'];
            let w = chars_of(id.as_str());
            extend_chars(&mut v, &w);
            v.push('>');
            assert(v@ =~= seq!['<'] + id@ + seq!['>']);
            string_of(&v)
        },
        None => {
            let mut v = chars_of("<generated-");
            let w = chars_of(fresh_id);
            extend_chars(&mut v, &w);
            v.push('>');
            assert(v@ =~= seq!['<'] + "generated-"@ + fresh_id@ + seq!['>']) by {
                reveal_strlit("<generated-");
                reveal_strlit("generated-");
            }
            string_of(&v)
        },
    };
    let in_reply_to = match read_in_reply_to(raw) {
        Some(s) => Some(bracket_id(s.as_str())),
        None => None,
    };
    let references = match read_references(raw) {
        Some(list) => {
            let ghost lv = list@.map_values(|s: String| s@);
            let mut out: Vec<String> = Vec::new();
            let mut i: usize = 0;
            while i < list.len()
                invariant
                    i <= list.len(),
                    lv == list@.map_values(|s: String| s@),
                    out@.map_values(|s: String| s@) == lv.take(i as int).map_values(
                        |s: Seq<char>| bracketed(s),
                    ),
                decreases list.len() - i,
            {
                let b = bracket_id(list[i].as_str());
                let ghost before = out@.map_values(|s: String| s@);
                out.push(b);
                assert(out@.map_values(|s: String| s@) =~= before.push(b@));
                assert(lv.take(i + 1).map_values(|s: Seq<char>| bracketed(s)) =~= lv.take(
                    i as int,
                ).map_values(|s: Seq<char>| bracketed(s)).push(bracketed(lv[i as int])));
                i = i + 1;
            }
            assert(lv.take(list.len() as int) =~= lv);
            out
        },
        None => {
            let out: Vec<String> = Vec::new();
            assert(out@.map_values(|s: String| s@) =~= Seq::<Seq<char>>::empty());
            out
        },
    };
    let from = read_from(raw);
    let (from_email, from_name) = extract_first_addr_opt(&from);
    let to_header = read_to(raw);
    let to = extract_addr_list_opt(&to_header);
    let cc_header = read_cc(raw);
    let cc = extract_addr_list_opt(&cc_header);
    let subject = read_subject(raw);
    let sent_at = match read_date(raw) {
        Some(ts) => match checked_timestamp(ts) {
            Some(t) => UtcTime::from_secs(t),
            None => now,
        },
        None => now,
    };
    let body_text = match read_body_text(raw) {
        Some(t) => Some(strip_quotes_and_signature(t.as_str())),
        None => None,
    };
    let body_html = read_body_html(raw);
    let attachments = extract_attachments(raw);
    let raw_headers = extract_raw_headers(raw);
    let header_chars = chars_of(raw_headers.as_str());
    let lowered = to_ascii_lowercase_chars(&header_chars);
    let is_newsletter = has_unsubscribe_field(&lowered);
    let parsed = ParsedEmail {
        message_id,
        in_reply_to,
        references,
        from_email,
        from_name,
        to,
        cc,
        subject,
        body_text,
        body_html,
        sent_at,
        raw_headers,
        attachments,
        is_newsletter,
    };
    assert(parsed@ == parsed_email(raw@, fresh_id@, now));
    Ok(parsed)
}

/// Reads a raw RFC 5322 message into a `ParsedEmail`: a message without a
/// Message-ID gets `<generated-UUID>` with a fresh random UUID, one without a
/// usable Date gets the current time.
pub fn parse_email(raw: &[u8]) -> (r: AppResult<ParsedEmail>)
    ensures
        match r {
            Ok(p) => mime_parses(raw@) && exists|fresh: Seq<char>, now: UtcTime|
                crate::stamp::is_uuid_text(fresh) && p@ == #[trigger] parsed_email(raw@, fresh, now),
            Err(e) => !mime_parses(raw@) && is_parse_failure(e),
        },
{
    let fresh = new_uuid_v4();
    let now = now_utc();
    parse_email_with(raw, fresh.as_str(), now)
}


/// The Message-ID recorded for a parsed message is always in angle brackets.
pub proof fn law_message_id_in_brackets(raw: Seq<u8>, fresh: Seq<char>, now: UtcTime)
    ensures
        ({
            let id = parsed_email(raw, fresh, now).message_id;
            id.len() >= 2 && id[0] == '<' && id.last() == '>'
        }),
{
    reveal_strlit("generated-");
}

} // verus!
