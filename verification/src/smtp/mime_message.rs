//! The MIME message handed to the SMTP transport, built with `lettre`.
//!
//! The builder, its parts and the finished message are `lettre`'s own
//! values: the library decides what goes into them (addresses, headers,
//! parts) and hands each piece over; what `lettre` makes of the pieces is
//! its business.

use vstd::prelude::*;

use super::assemble::{
    mixed_body, text_body, with_attachment, AttachmentModel, AttachmentModelView, BodyModelView, MimeMail,
};
use super::outgoing::{
    build_raw_message_with, date_header_now, mailbox_text, message_id_for, message_id_with,
    raw_message_of, OutgoingAttachment, OutgoingMessage, SmtpSender,
};
use crate::error::{AppError, AppResult};
use crate::models::{opt_view, owned, recipient_views};
use crate::stamp::new_uuid_v4;
use crate::text::{chars_of, extend_chars, join, join_chars, string_of, views};

verus! {

#[verifier::external_type_specification]
#[verifier::external_body]
pub struct ExMailbox(lettre::message::Mailbox);

#[verifier::external_type_specification]
#[verifier::external_body]
pub struct ExEnvelope(lettre::address::Envelope);

#[verifier::external_type_specification]
#[verifier::external_body]
pub struct ExContentType(lettre::message::header::ContentType);

// ─── Mailboxes ───────────────────────────────────────────────────────────────

/// Why `lettre` refuses `text` as a mailbox (the error's text), or none
/// when it accepts it.
pub uninterp spec fn mailbox_parse_error(text: Seq<char>) -> Option<Seq<char>>;

/// `str::parse::<lettre::message::Mailbox>`, the error given as its text.
/// Which texts `lettre` accepts is left to the name `mailbox_parse_error`.
#[verifier::external_body]
fn parse_mailbox(text: &str) -> (r: Result<lettre::message::Mailbox, String>)
    ensures
        match r {
            Ok(_) => mailbox_parse_error(text@) is None,
            Err(m) => mailbox_parse_error(text@) == Some(m@),
        },
{
    text.parse::<lettre::message::Mailbox>().map_err(|e| e.to_string())
}

/// The error for an address that `lettre` refuses: the address and the
/// reason, as a mailbox with a name or as a bare address.
pub open spec fn mailbox_error(email: Seq<char>, named: bool, reason: Seq<char>) -> Seq<char> {
    if named {
        "invalid mailbox '"@ + email + "': "@ + reason
    } else {
        "invalid email '"@ + email + "': "@ + reason
    }
}

/// Whether `lettre` accepts the mailbox for `email` and `name`.
pub open spec fn mailbox_ok(email: Seq<char>, name: Option<Seq<char>>) -> bool {
    mailbox_parse_error(mailbox_text(email, name)) is None
}

/// The error for the mailbox of `email` and `name`, when `lettre` refuses it.
pub open spec fn mailbox_failure(email: Seq<char>, name: Option<Seq<char>>) -> Seq<char> {
    match mailbox_parse_error(mailbox_text(email, name)) {
        Some(reason) => mailbox_error(email, name is Some, reason),
        None => seq![],
    }
}

/// The `lettre` mailbox for `email` with display name `name`: the text
/// `name <email>` (or the bare address) as `lettre` parses it; an SMTP error
/// naming the address when it is refused.
pub fn build_mailbox(email: &str, name: Option<&str>) -> (r: AppResult<lettre::message::Mailbox>)
    ensures
        r is Ok <==> mailbox_ok(email@, crate::models::opt_str_view(name)),
        r matches Err(e) ==> e matches AppError::Smtp(m) && m@ == mailbox_failure(
            email@,
            crate::models::opt_str_view(name),
        ),
{
    let e = chars_of(email);
    let text = match name {
        Some(n) => {
            let mut v = chars_of(n);
            let open = chars_of(" <");
            extend_chars(&mut v, &open);
            extend_chars(&mut v, &e);
            v.push('>');
            assert(v@ =~= n@ + " <"@ + email@ + seq!['>']);
            v
        },
        None => chars_of(email),
    };
    assert(text@ == mailbox_text(email@, crate::models::opt_str_view(name)));
    let text = string_of(&text);
    match parse_mailbox(text.as_str()) {
        Ok(mb) => Ok(mb),
        Err(reason) => {
            let mut m = match name {
                Some(_) => chars_of("invalid mailbox '"),
                None => chars_of("invalid email '"),
            };
            extend_chars(&mut m, &e);
            let mid = chars_of("': ");
            extend_chars(&mut m, &mid);
            let rv = chars_of(reason.as_str());
            extend_chars(&mut m, &rv);
            assert(m@ =~= mailbox_error(email@, name is Some, reason@));
            Err(AppError::Smtp(string_of(&m)))
        },
    }
}

// ─── The message handed to lettre ───────────────────────────────────────────

/// The headers of an outgoing message as handed to `lettre`: the sender's,
/// To, Cc and Bcc mailboxes as `Name <address>` texts, the subject, the
/// In-Reply-To and References values (when the message has them) and the
/// Message-ID.
#[derive(Debug, Clone)]
pub struct MailHeaders {
    pub from: String,
    pub to: Vec<String>,
    pub cc: Vec<String>,
    pub bcc: Vec<String>,
    pub subject: String,
    pub in_reply_to: Option<String>,
    pub references: Option<String>,
    pub message_id: String,
}

pub struct MailHeadersView {
    pub from: Seq<char>,
    pub to: Seq<Seq<char>>,
    pub cc: Seq<Seq<char>>,
    pub bcc: Seq<Seq<char>>,
    pub subject: Seq<char>,
    pub in_reply_to: Option<Seq<char>>,
    pub references: Option<Seq<char>>,
    pub message_id: Seq<char>,
}

impl View for MailHeaders {
    type V = MailHeadersView;

    open spec fn view(&self) -> MailHeadersView {
        MailHeadersView {
            from: self.from@,
            to: views_of_strings(self.to@),
            cc: views_of_strings(self.cc@),
            bcc: views_of_strings(self.bcc@),
            subject: self.subject@,
            in_reply_to: opt_view(self.in_reply_to),
            references: opt_view(self.references),
            message_id: self.message_id@,
        }
    }
}

/// The texts of a sequence of strings.
pub open spec fn views_of_strings(v: Seq<String>) -> Seq<Seq<char>> {
    v.map_values(|s: String| s@)
}

/// The mailbox texts of a list of recipients.
pub open spec fn mailbox_texts(ps: Seq<(Seq<char>, Option<Seq<char>>)>) -> Seq<Seq<char>> {
    ps.map_values(|p: (Seq<char>, Option<Seq<char>>)| mailbox_text(p.0, p.1))
}

/// The headers of `msg` with the Message-ID made from `uuid`: References
/// are its Message-IDs separated by spaces, present when there is one.
pub open spec fn mail_headers_of(msg: &OutgoingMessage, uuid: Seq<char>) -> MailHeadersView {
    let refs = views_of_strings(msg.references@);
    MailHeadersView {
        from: mailbox_text(msg.from_email@, opt_view(msg.from_name)),
        to: mailbox_texts(recipient_views(msg.to@)),
        cc: mailbox_texts(recipient_views(msg.cc@)),
        bcc: mailbox_texts(recipient_views(msg.bcc@)),
        subject: msg.subject@,
        in_reply_to: opt_view(msg.in_reply_to),
        references: if refs.len() > 0 {
            Some(join(refs, seq![' ']))
        } else {
            None
        },
        message_id: message_id_for(uuid, msg.from_email@),
    }
}

/// Every mailbox text of the headers is accepted by `lettre`.
pub open spec fn mailboxes_parse(h: MailHeadersView) -> bool {
    &&& mailbox_parse_error(h.from) is None
    &&& forall|i: int| 0 <= i < h.to.len() ==> mailbox_parse_error(#[trigger] h.to[i]) is None
    &&& forall|i: int| 0 <= i < h.cc.len() ==> mailbox_parse_error(#[trigger] h.cc[i]) is None
    &&& forall|i: int| 0 <= i < h.bcc.len() ==> mailbox_parse_error(#[trigger] h.bcc[i]) is None
}

/// Whether `lettre` accepts `text` as a content type.
pub uninterp spec fn content_type_parses(text: Seq<char>) -> bool;

/// `ContentType::parse`. Which texts parse is left to the name
/// `content_type_parses`, except that `application/octet-stream`, a
/// well-formed MIME type, does.
#[verifier::external_body]
fn parse_content_type(text: &str) -> (r: Option<lettre::message::header::ContentType>)
    ensures
        r is Some <==> content_type_parses(text@),
        text@ == "application/octet-stream"@ ==> r is Some,
{
    lettre::message::header::ContentType::parse(text).ok()
}

// ─── The message ─────────────────────────────────────────────────────────────

/// The first of `ps` whose mailbox `lettre` refuses, if any.
pub open spec fn first_refused(ps: Seq<(Seq<char>, Option<Seq<char>>)>) -> Option<(Seq<char>, Option<Seq<char>>)>
    decreases ps.len(),
{
    if ps.len() == 0 {
        None
    } else if !mailbox_ok(ps[0].0, ps[0].1) {
        Some(ps[0])
    } else {
        first_refused(ps.drop_first())
    }
}

/// The addresses of a message in the order they are handed to the builder:
/// the sender, then To, Cc and Bcc.
pub open spec fn message_addresses(msg: &OutgoingMessage) -> Seq<(Seq<char>, Option<Seq<char>>)> {
    seq![(msg.from_email@, opt_view(msg.from_name))] + recipient_views(msg.to@) + recipient_views(msg.cc@)
        + recipient_views(msg.bcc@)
}

/// The mailbox texts of `ps`, in order, once `lettre` accepts each; an SMTP
/// error for the first it refuses.
fn checked_mailboxes(ps: &Vec<(String, Option<String>)>) -> (r: Result<Vec<String>, AppError>)
    ensures
        match first_refused(recipient_views(ps@)) {
            Some(p) => r matches Err(e) && e matches AppError::Smtp(m) && m@ == mailbox_failure(p.0, p.1),
            None => r matches Ok(v) && views_of_strings(v@) == mailbox_texts(recipient_views(ps@)),
        },
{
    let ghost pv = recipient_views(ps@);
    let mut out: Vec<String> = Vec::new();
    let mut i: usize = 0;
    assert(pv.skip(0) =~= pv);
    while i < ps.len()
        invariant
            i <= ps.len(),
            pv == recipient_views(ps@),
            first_refused(pv) == first_refused(pv.skip(i as int)),
            views_of_strings(out@) == mailbox_texts(pv.take(i as int)),
        decreases ps.len() - i,
    {
        proof {
            assert(pv.skip(i as int).len() > 0);
            assert(pv.skip(i as int)[0] == pv[i as int]);
            assert(pv[i as int] == crate::models::recipient_view(ps@[i as int]));
            assert(pv.skip(i as int).drop_first() =~= pv.skip(i + 1));
        }
        let name = match &ps[i].1 {
            Some(n) => Some(n.as_str()),
            None => None,
        };
        match build_mailbox(ps[i].0.as_str(), name) {
            Err(e) => {
                return Err(e);
            },
            Ok(_) => {
                let t = super::outgoing::mailbox_text_of(&ps[i].0, &ps[i].1);
                let ghost before = views_of_strings(out@);
                out.push(string_of(&t));
                assert(views_of_strings(out@) =~= before.push(t@));
                assert(mailbox_texts(pv.take(i + 1)) =~= mailbox_texts(pv.take(i as int)).push(t@));
            },
        }
        i = i + 1;
    }
    assert(pv.skip(i as int) =~= Seq::<(Seq<char>, Option<Seq<char>>)>::empty());
    assert(pv.take(i as int) =~= pv);
    Ok(out)
}

/// Without a refused mailbox, every mailbox of a list is accepted.
proof fn lemma_none_refused(ps: Seq<(Seq<char>, Option<Seq<char>>)>)
    requires
        first_refused(ps) is None,
    ensures
        forall|i: int| 0 <= i < ps.len() ==> mailbox_parse_error(#[trigger] mailbox_texts(ps)[i]) is None,
    decreases ps.len(),
{
    if ps.len() > 0 {
        lemma_none_refused(ps.drop_first());
        assert forall|i: int| 0 <= i < ps.len() implies mailbox_parse_error(#[trigger] mailbox_texts(ps)[i])
            is None by {
            if i > 0 {
                assert(mailbox_texts(ps)[i] == mailbox_texts(ps.drop_first())[i - 1]);
            }
        }
    }
}

/// The first refused of one mailbox.
proof fn lemma_first_refused_single(p: (Seq<char>, Option<Seq<char>>))
    ensures
        first_refused(seq![p]) == if !mailbox_ok(p.0, p.1) {
            Some(p)
        } else {
            None::<(Seq<char>, Option<Seq<char>>)>
        },
{
    let s = seq![p];
    assert(s.len() == 1);
    assert(s[0] == p);
    assert(s.drop_first() =~= Seq::<(Seq<char>, Option<Seq<char>>)>::empty());
    assert(first_refused(Seq::<(Seq<char>, Option<Seq<char>>)>::empty()) is None);
}

/// The headers of `msg` (see `mail_headers_of`) with the checked mailbox
/// texts and the Message-ID made from `uuid`.
fn mail_headers_with(
    msg: &OutgoingMessage,
    from: String,
    to: Vec<String>,
    cc: Vec<String>,
    bcc: Vec<String>,
    uuid: &str,
) -> (r: MailHeaders)
    requires
        from@ == mailbox_text(msg.from_email@, opt_view(msg.from_name)),
        views_of_strings(to@) == mailbox_texts(recipient_views(msg.to@)),
        views_of_strings(cc@) == mailbox_texts(recipient_views(msg.cc@)),
        views_of_strings(bcc@) == mailbox_texts(recipient_views(msg.bcc@)),
    ensures
        r@ == mail_headers_of(msg, uuid@),
{
    let ghost refs = views_of_strings(msg.references@);
    let references = if msg.references.len() > 0 {
        let mut parts: Vec<Vec<char>> = Vec::new();
        let mut i: usize = 0;
        while i < msg.references.len()
            invariant
                i <= msg.references.len(),
                refs == views_of_strings(msg.references@),
                views(parts@) == refs.take(i as int),
            decreases msg.references.len() - i,
        {
            let p = chars_of(msg.references[i].as_str());
            let ghost before = views(parts@);
            parts.push(p);
            assert(views(parts@) =~= before.push(p@));
            assert(refs.take(i + 1) =~= refs.take(i as int).push(msg.references@[i as int]@));
            i = i + 1;
        }
        assert(refs.take(msg.references.len() as int) =~= refs);
        let space: Vec<char> = vec![' '];
        assert(space@ =~= seq![' ']);
        Some(string_of(&join_chars(&parts, &space)))
    } else {
        None
    };
    let in_reply_to = match &msg.in_reply_to {
        Some(v) => Some(v.clone()),
        None => None,
    };
    MailHeaders {
        from,
        to,
        cc,
        bcc,
        subject: msg.subject.clone(),
        in_reply_to,
        references,
        message_id: message_id_with(uuid, msg.from_email.as_str()),
    }
}

/// The content type an attachment is sent with: its MIME type when
/// `lettre` accepts it, else `application/octet-stream`.
pub open spec fn sent_content_type(mime_type: Seq<char>) -> Seq<char> {
    if content_type_parses(mime_type) {
        mime_type
    } else {
        "application/octet-stream"@
    }
}

/// The model of an attachment of an outgoing message as it is sent.
pub open spec fn attachment_model_of(a: OutgoingAttachment) -> AttachmentModelView {
    AttachmentModelView { filename: a.filename@, content_type: sent_content_type(a.mime_type@), data: a.data@ }
}

/// The body of `msg` as it is sent: its text alone, or, with attachments,
/// its text as the first part of a multipart/mixed body followed by one
/// part per attachment, in order.
pub open spec fn body_of(msg: &OutgoingMessage) -> BodyModelView {
    BodyModelView {
        multipart: msg.attachments@.len() > 0,
        text: msg.body_text@,
        attachments: msg.attachments@.map_values(|a: OutgoingAttachment| attachment_model_of(a)),
    }
}

/// What building `msg` with Message-ID UUID `uuid` gives: an SMTP error for
/// the first of its mailboxes that `lettre` refuses; otherwise the message
/// exactly when it has a recipient, built from the headers
/// `mail_headers_of(msg, uuid)`.
pub open spec fn built_as(msg: &OutgoingMessage, uuid: Seq<char>, r: AppResult<MimeMail>) -> bool {
    match first_refused(message_addresses(msg)) {
        Some(p) => r matches Err(e) && e matches AppError::Smtp(m) && m@ == mailbox_failure(p.0, p.1),
        None => {
            &&& (r is Ok <==> msg.to@.len() + msg.cc@.len() + msg.bcc@.len() > 0)
            &&& r matches Ok(m) ==> m.header_model() == mail_headers_of(msg, uuid) && m.body_model() == body_of(
                msg,
            )
            &&& r matches Err(e) ==> e is Smtp
        },
    }
}

/// What building `msg` and its Sent copy with Message-ID UUID `uuid`, the
/// copy dated `date`, gives: the message as `built_as` says, and with it the
/// raw copy `raw_message_of(msg, date, uuid)`, which carries the same
/// Message-ID.
pub open spec fn built_with_copy(
    msg: &OutgoingMessage,
    uuid: Seq<char>,
    date: Seq<char>,
    r: AppResult<(MimeMail, String)>,
) -> bool {
    match r {
        Ok((m, raw)) => built_as(msg, uuid, Ok(m)) && raw@ == raw_message_of(msg, date, uuid),
        Err(e) => built_as(msg, uuid, Err(e)),
    }
}

impl SmtpSender {
    /// The MIME message for `msg` with the Message-ID made from `uuid`: its
    /// sender, To, Cc and Bcc mailboxes in that order (an SMTP error for the
    /// first that `lettre` refuses), its subject, In-Reply-To and References
    /// (separated by spaces) when there are any, the Message-ID at the
    /// sender's domain, and its text as a plain-text body, or, with
    /// attachments, as the first part of a multipart/mixed body followed by
    /// one part per attachment (typed by its MIME type,
    /// `application/octet-stream` when that does not parse). See `built_as`.
    pub fn build_message_with(&self, msg: &OutgoingMessage, uuid: &str) -> (r: AppResult<MimeMail>)
        ensures
            built_as(msg, uuid@, r),
    {
        let ghost from = (msg.from_email@, opt_view(msg.from_name));
        let ghost to = recipient_views(msg.to@);
        let ghost cc = recipient_views(msg.cc@);
        let ghost bcc = recipient_views(msg.bcc@);
        proof {
            lemma_first_refused_append(seq![from], to);
            lemma_first_refused_append(seq![from] + to, cc);
            lemma_first_refused_append(seq![from] + to + cc, bcc);
            lemma_first_refused_single(from);
            assert(message_addresses(msg) == seq![from] + to + cc + bcc);
        }
        let from_name = match &msg.from_name {
            Some(n) => Some(n.as_str()),
            None => None,
        };
        match build_mailbox(msg.from_email.as_str(), from_name) {
            Err(e) => {
                return Err(e);
            },
            Ok(_) => {},
        };
        let from_text = string_of(&super::outgoing::mailbox_text_of(&msg.from_email, &msg.from_name));
        let to_texts = match checked_mailboxes(&msg.to) {
            Err(e) => {
                return Err(e);
            },
            Ok(v) => v,
        };
        let cc_texts = match checked_mailboxes(&msg.cc) {
            Err(e) => {
                return Err(e);
            },
            Ok(v) => v,
        };
        let bcc_texts = match checked_mailboxes(&msg.bcc) {
            Err(e) => {
                return Err(e);
            },
            Ok(v) => v,
        };
        let headers = mail_headers_with(msg, from_text, to_texts, cc_texts, bcc_texts, uuid);
        proof {
            lemma_none_refused(to);
            lemma_none_refused(cc);
            lemma_none_refused(bcc);
            assert(mailboxes_parse(headers@));
        }
        let body = if msg.attachments.len() == 0 {
            let b = text_body(msg.body_text.clone());
            assert(b.model().attachments =~= body_of(msg).attachments);
            b
        } else {
            let mut b = mixed_body(msg.body_text.clone());
            let ghost atts = msg.attachments@.map_values(|a: OutgoingAttachment| attachment_model_of(a));
            let mut i: usize = 0;
            assert(b.model().attachments =~= atts.take(0));
            while i < msg.attachments.len()
                invariant
                    i <= msg.attachments.len(),
                    atts == msg.attachments@.map_values(|a: OutgoingAttachment| attachment_model_of(a)),
                    b.model().multipart,
                    b.model().text == msg.body_text@,
                    b.model().attachments == atts.take(i as int),
                decreases msg.attachments.len() - i,
            {
                let att = &msg.attachments[i];
                let content_type = match parse_content_type(att.mime_type.as_str()) {
                    Some(_) => att.mime_type.clone(),
                    None => {
                        // `lettre` accepts the fallback type (see `parse_content_type`).
                        let _accepted = parse_content_type("application/octet-stream");
                        proof {
                            reveal_strlit("application/octet-stream");
                        }
                        owned("application/octet-stream")
                    },
                };
                let model = AttachmentModel {
                    filename: att.filename.clone(),
                    content_type,
                    data: att.data.clone(),
                };
                assert(model@ == attachment_model_of(msg.attachments@[i as int]));
                b = match with_attachment(b, model) {
                    Some(n) => n,
                    None => {
                        return Err(AppError::Smtp(owned("application/octet-stream")));
                    },
                };
                assert(atts.take(i + 1) =~= atts.take(i as int).push(atts[i as int]));
                i = i + 1;
            }
            assert(atts.take(msg.attachments.len() as int) =~= atts);
            b
        };
        proof {
            assert(mailbox_texts(to).len() == msg.to@.len());
        }
        let draft = match super::assemble::start(headers) {
            Ok(d) => d,
            Err(reason) => {
                return Err(AppError::Smtp(reason));
            },
        };
        match super::assemble::finish(draft, body) {
            Ok(m) => Ok(m),
            Err(reason) => Err(AppError::Smtp(reason)),
        }
    }

    /// The MIME message for `msg` and its raw copy for the Sent folder,
    /// both with one fresh Message-ID, the copy dated now (see
    /// `build_message_with` and `build_raw_message_with`).
    pub fn build_message_and_copy(&self, msg: &OutgoingMessage) -> (r: AppResult<(MimeMail, String)>)
        ensures
            exists|uuid: Seq<char>, date: Seq<char>|
                crate::stamp::is_uuid_text(uuid) && #[trigger] built_with_copy(msg, uuid, date, r),
    {
        let uuid = new_uuid_v4();
        let date = date_header_now();
        match self.build_message_with(msg, uuid.as_str()) {
            Err(e) => {
                let r: AppResult<(MimeMail, String)> = Err(e);
                assert(built_with_copy(msg, uuid@, date@, r));
                r
            },
            Ok(m) => {
                let raw = build_raw_message_with(msg, date.as_str(), uuid.as_str());
                let r = Ok((m, raw));
                assert(built_with_copy(msg, uuid@, date@, r));
                r
            },
        }
    }

    /// The MIME message for `msg` with a fresh Message-ID (see
    /// `build_message_with`).
    pub fn build_message(&self, msg: &OutgoingMessage) -> (r: AppResult<MimeMail>)
        ensures
            exists|uuid: Seq<char>| crate::stamp::is_uuid_text(uuid) && #[trigger] built_as(msg, uuid, r),
    {
        let uuid = new_uuid_v4();
        self.build_message_with(msg, uuid.as_str())
    }
}

/// The first refused of two lists is that of the first list, or else that of
/// the second.
proof fn lemma_first_refused_append(
    a: Seq<(Seq<char>, Option<Seq<char>>)>,
    b: Seq<(Seq<char>, Option<Seq<char>>)>,
)
    ensures
        first_refused(a + b) == match first_refused(a) {
            Some(p) => Some(p),
            None => first_refused(b),
        },
    decreases a.len(),
{
    if a.len() == 0 {
        assert(a + b =~= b);
    } else {
        assert((a + b)[0] == a[0]);
        assert((a + b).drop_first() =~= a.drop_first() + b);
        lemma_first_refused_append(a.drop_first(), b);
    }
}

} // verus!
