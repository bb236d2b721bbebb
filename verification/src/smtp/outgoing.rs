//! The outgoing message, its Message-ID, and its raw RFC 5322 copy.

use vstd::prelude::*;

use crate::db::{first_index, lemma_first_index, lemma_first_index_at};
use crate::models::{opt_view, owned, recipient_view, recipient_views, Account};
use crate::stamp::new_uuid_v4;
use crate::text::{chars_of, extend_chars, join, join_chars, string_of, sub_chars, views};

verus! {

/// A message to send.
#[derive(Debug, Clone)]
pub struct OutgoingMessage {
    pub from_email: String,
    pub from_name: Option<String>,
    pub to: Vec<(String, Option<String>)>,
    pub cc: Vec<(String, Option<String>)>,
    pub bcc: Vec<(String, Option<String>)>,
    pub subject: String,
    pub body_text: String,
    /// The Message-ID replied to (for threading).
    pub in_reply_to: Option<String>,
    /// The Message-IDs of the thread so far (for threading).
    pub references: Vec<String>,
    pub attachments: Vec<OutgoingAttachment>,
}

/// A file attached to an outgoing message.
#[derive(Debug, Clone)]
pub struct OutgoingAttachment {
    pub filename: String,
    pub mime_type: String,
    pub data: Vec<u8>,
}

/// What a successful send reports.
#[derive(Debug, Clone)]
pub struct SendResult {
    /// The Message-ID given to the sent message.
    pub message_id: String,
}

/// Sends mail for one account.
pub struct SmtpSender {
    pub account: Account,
}

impl SmtpSender {
    /// A sender for `account`.
    pub fn new(account: Account) -> (r: Self)
        ensures
            r.account == account,
    {
        SmtpSender { account }
    }
}

// ─── Addresses ───────────────────────────────────────────────────────────────

/// Selects `@`.
pub open spec fn is_at() -> spec_fn(char) -> bool {
    |c: char| c == '@'
}

/// The domain of an address: the text between its first `@` and the next
/// one (or the end), as the second piece of `str::split('@')`; `localhost`
/// for an address without `@`.
pub open spec fn domain_of(email: Seq<char>) -> Seq<char> {
    match first_index(email, is_at()) {
        Some(k) => {
            let rest = email.skip(k + 1);
            match first_index(rest, is_at()) {
                Some(j) => rest.take(j),
                None => rest,
            }
        },
        None => "localhost"@,
    }
}

/// The position of the first `@` in `v` from `from` on.
fn find_at(v: &Vec<char>, from: usize) -> (r: Option<usize>)
    requires
        from <= v.len(),
    ensures
        match r {
            Some(i) => from <= i < v.len() && first_index(v@.skip(from as int), is_at()) == Some(i - from),
            None => first_index(v@.skip(from as int), is_at()) is None,
        },
{
    let ghost s = v@.skip(from as int);
    let mut i: usize = from;
    while i < v.len()
        invariant
            from <= i <= v.len(),
            s == v@.skip(from as int),
            forall|k: int| 0 <= k < i - from ==> !is_at()(#[trigger] s[k]),
        decreases v.len() - i,
    {
        assert(s[i - from] == v@[i as int]);
        if v[i] == '@' {
            proof {
                lemma_first_index_at(s, is_at(), i - from);
            }
            return Some(i);
        }
        i = i + 1;
    }
    proof {
        lemma_first_index_at(s, is_at(), i - from);
    }
    None
}

/// The domain of `email` (see `domain_of`).
pub fn domain_from_email(email: &str) -> (r: String)
    ensures
        r@ == domain_of(email@),
{
    let v = chars_of(email);
    assert(v@.skip(0) =~= v@);
    match find_at(&v, 0) {
        None => {
            assert(first_index(email@, is_at()) is None);
            owned("localhost")
        },
        Some(k) => {
            assert(first_index(email@, is_at()) == Some(k as int));
            let rest = sub_chars(&v, k + 1, v.len());
            assert(rest@ =~= v@.skip(k + 1));
            assert(rest@.skip(0) =~= rest@);
            match find_at(&rest, 0) {
                Some(j) => {
                    assert(first_index(rest@, is_at()) == Some(j as int));
                    let d = sub_chars(&rest, 0, j);
                    assert(d@ =~= rest@.take(j as int));
                    string_of(&d)
                },
                None => {
                    assert(first_index(rest@, is_at()) is None);
                    string_of(&rest)
                },
            }
        },
    }
}

/// The Message-ID `<uuid@domain>` for a message from `from_email`.
pub open spec fn message_id_for(uuid: Seq<char>, from_email: Seq<char>) -> Seq<char> {
    seq!['<'] + uuid + seq!['@'] + domain_of(from_email) + seq!['>']
}

/// The Message-ID for a message from `from_email`, given its UUID text.
pub fn message_id_with(uuid: &str, from_email: &str) -> (r: String)
    ensures
        r@ == message_id_for(uuid@, from_email@),
{
    let mut v: Vec<char> = vec!['<'];
    let u = chars_of(uuid);
    extend_chars(&mut v, &u);
    v.push('@');
    let d = domain_from_email(from_email);
    let dv = chars_of(d.as_str());
    extend_chars(&mut v, &dv);
    v.push('>');
    assert(v@ =~= message_id_for(uuid@, from_email@));
    string_of(&v)
}

/// A fresh Message-ID for a message from `from_email`: a random UUID at the
/// sender's domain.
pub fn new_message_id(from_email: &str) -> (r: String)
    ensures
        exists|uuid: Seq<char>| crate::stamp::is_uuid_text(uuid) && r@ == #[trigger] message_id_for(uuid, from_email@),
{
    let uuid = new_uuid_v4();
    message_id_with(uuid.as_str(), from_email)
}

// ─── The raw copy ────────────────────────────────────────────────────────────

/// An address as a header writes it: `Name <address>`, or the bare address.
pub open spec fn mailbox_text(email: Seq<char>, name: Option<Seq<char>>) -> Seq<char> {
    match name {
        Some(n) => n + " <"@ + email + seq!['>'],
        None => email,
    }
}

/// A list of addresses as a header writes it, separated by `, `.
pub open spec fn address_list(ps: Seq<(Seq<char>, Option<Seq<char>>)>) -> Seq<char> {
    join(ps.map_values(|p: (Seq<char>, Option<Seq<char>>)| mailbox_text(p.0, p.1)), ", "@)
}

/// `Name <address>` or the bare address.
pub(crate) fn mailbox_text_of(email: &String, name: &Option<String>) -> (r: Vec<char>)
    ensures
        r@ == mailbox_text(email@, opt_view(*name)),
{
    let e = chars_of(email.as_str());
    match name {
        Some(n) => {
            let mut v = chars_of(n.as_str());
            let open = chars_of(" <");
            extend_chars(&mut v, &open);
            extend_chars(&mut v, &e);
            v.push('>');
            v
        },
        None => e,
    }
}

/// The addresses of `ps` as a header writes them.
fn address_list_of(ps: &Vec<(String, Option<String>)>) -> (r: Vec<char>)
    ensures
        r@ == address_list(recipient_views(ps@)),
{
    let ghost pv = recipient_views(ps@);
    let ghost texts = pv.map_values(|p: (Seq<char>, Option<Seq<char>>)| mailbox_text(p.0, p.1));
    let mut parts: Vec<Vec<char>> = Vec::new();
    let mut i: usize = 0;
    while i < ps.len()
        invariant
            i <= ps.len(),
            pv == recipient_views(ps@),
            texts == pv.map_values(|p: (Seq<char>, Option<Seq<char>>)| mailbox_text(p.0, p.1)),
            views(parts@) == texts.take(i as int),
        decreases ps.len() - i,
    {
        let t = mailbox_text_of(&ps[i].0, &ps[i].1);
        let ghost before = views(parts@);
        parts.push(t);
        assert(views(parts@) =~= before.push(t@));
        assert(texts.take(i + 1) =~= texts.take(i as int).push(texts[i as int]));
        i = i + 1;
    }
    assert(texts.take(ps.len() as int) =~= texts);
    let sep = chars_of(", ");
    join_chars(&parts, &sep)
}

/// Lines, each followed by CRLF.
pub open spec fn crlf_lines(ls: Seq<Seq<char>>) -> Seq<char>
    decreases ls.len(),
{
    if ls.len() == 0 {
        seq![]
    } else {
        crlf_lines(ls.drop_last()) + ls.last() + seq!['\r', '\n']
    }
}

/// The header lines of the raw copy kept for the Sent folder: From, To,
/// Subject, Date (`date`), Message-ID (from `uuid`), content type and MIME
/// version; then In-Reply-To, References (separated by spaces) and Cc when
/// there are any.
pub open spec fn raw_header_lines(
    from_email: Seq<char>,
    from_name: Option<Seq<char>>,
    to: Seq<(Seq<char>, Option<Seq<char>>)>,
    cc: Seq<(Seq<char>, Option<Seq<char>>)>,
    subject: Seq<char>,
    in_reply_to: Option<Seq<char>>,
    references: Seq<Seq<char>>,
    date: Seq<char>,
    uuid: Seq<char>,
) -> Seq<Seq<char>> {
    let base = seq![
        "From: "@ + mailbox_text(from_email, from_name),
        "To: "@ + address_list(to),
        "Subject: "@ + subject,
        "Date: "@ + date,
        "Message-ID: "@ + message_id_for(uuid, from_email),
        "Content-Type: text/plain; charset=utf-8"@,
        "MIME-Version: 1.0"@,
    ];
    let irt = match in_reply_to {
        Some(id) => seq!["In-Reply-To: "@ + id],
        None => seq![],
    };
    let refs = if references.len() > 0 {
        seq!["References: "@ + join(references, seq![' '])]
    } else {
        seq![]
    };
    let ccs = if cc.len() > 0 {
        seq!["Cc: "@ + address_list(cc)]
    } else {
        seq![]
    };
    base + irt + refs + ccs
}

/// The raw RFC 5322 copy of `msg` kept for the Sent folder: its header
/// lines (see `raw_header_lines`) each ended by CRLF, a blank line, the
/// body.
pub open spec fn raw_message_of(msg: &OutgoingMessage, date: Seq<char>, uuid: Seq<char>) -> Seq<char> {
    crlf_lines(
        raw_header_lines(
            msg.from_email@,
            opt_view(msg.from_name),
            recipient_views(msg.to@),
            recipient_views(msg.cc@),
            msg.subject@,
            opt_view(msg.in_reply_to),
            msg.references@.map_values(|s: String| s@),
            date,
            uuid,
        ),
    ) + seq!['\r', '\n'] + msg.body_text@
}

/// `prefix` followed by `rest`.
fn prefixed(prefix: &str, rest: &Vec<char>) -> (r: Vec<char>)
    ensures
        r@ == prefix@ + rest@,
{
    let mut v = chars_of(prefix);
    extend_chars(&mut v, rest);
    v
}

/// The lines, each followed by CRLF.
fn write_lines(lines: &Vec<Vec<char>>) -> (r: Vec<char>)
    ensures
        r@ == crlf_lines(views(lines@)),
{
    let mut v: Vec<char> = Vec::new();
    let mut i: usize = 0;
    while i < lines.len()
        invariant
            i <= lines.len(),
            v@ == crlf_lines(views(lines@).take(i as int)),
        decreases lines.len() - i,
    {
        assert(views(lines@).take(i + 1).drop_last() =~= views(lines@).take(i as int));
        let ghost before = v@;
        extend_chars(&mut v, &lines[i]);
        v.push('\r');
        v.push('\n');
        assert(v@ =~= before + lines@[i as int]@ + seq!['\r', '\n']);
        i = i + 1;
    }
    assert(views(lines@).take(lines.len() as int) =~= views(lines@));
    v
}

/// The raw copy of `msg` (see `raw_message_of`) with the given date and
/// UUID texts.
pub fn build_raw_message_with(msg: &OutgoingMessage, date: &str, uuid: &str) -> (r: String)
    ensures
        r@ == raw_message_of(msg, date@, uuid@),
{
    let mut lines: Vec<Vec<char>> = Vec::new();
    let from = mailbox_text_of(&msg.from_email, &msg.from_name);
    lines.push(prefixed("From: ", &from));
    let to = address_list_of(&msg.to);
    lines.push(prefixed("To: ", &to));
    let subject = chars_of(msg.subject.as_str());
    lines.push(prefixed("Subject: ", &subject));
    let dv = chars_of(date);
    lines.push(prefixed("Date: ", &dv));
    let id = message_id_with(uuid, msg.from_email.as_str());
    let idv = chars_of(id.as_str());
    lines.push(prefixed("Message-ID: ", &idv));
    lines.push(chars_of("Content-Type: text/plain; charset=utf-8"));
    lines.push(chars_of("MIME-Version: 1.0"));
    let ghost base = views(lines@);
    if let Some(irt) = &msg.in_reply_to {
        let iv = chars_of(irt.as_str());
        lines.push(prefixed("In-Reply-To: ", &iv));
    }
    let ghost with_irt = views(lines@);
    assert(with_irt =~= base + match opt_view(msg.in_reply_to) {
        Some(id) => seq!["In-Reply-To: "@ + id],
        None => Seq::<Seq<char>>::empty(),
    });
    let ghost refs = msg.references@.map_values(|s: String| s@);
    if msg.references.len() > 0 {
        let mut parts: Vec<Vec<char>> = Vec::new();
        let mut i: usize = 0;
        while i < msg.references.len()
            invariant
                i <= msg.references.len(),
                refs == msg.references@.map_values(|s: String| s@),
                views(parts@) == refs.take(i as int),
            decreases msg.references.len() - i,
        {
            let p = chars_of(msg.references[i].as_str());
            let ghost before = views(parts@);
            parts.push(p);
            assert(views(parts@) =~= before.push(p@));
            assert(refs.take(i + 1) =~= refs.take(i as int).push(msg.references@[i as int]@));
            i = i + 1;
        }
        assert(refs.take(msg.references.len() as int) =~= refs);
        let space: Vec<char> = vec![' '];
        assert(space@ =~= seq![' ']);
        let joined = join_chars(&parts, &space);
        lines.push(prefixed("References: ", &joined));
    }
    let ghost with_refs = views(lines@);
    assert(with_refs =~= with_irt + if refs.len() > 0 {
        seq!["References: "@ + join(refs, seq![' '])]
    } else {
        Seq::<Seq<char>>::empty()
    });
    if msg.cc.len() > 0 {
        let cc = address_list_of(&msg.cc);
        lines.push(prefixed("Cc: ", &cc));
    }
    assert(views(lines@) =~= with_refs + if msg.cc.len() > 0 {
        seq!["Cc: "@ + address_list(recipient_views(msg.cc@))]
    } else {
        Seq::<Seq<char>>::empty()
    });
    assert(views(lines@) =~= raw_header_lines(
        msg.from_email@,
        opt_view(msg.from_name),
        recipient_views(msg.to@),
        recipient_views(msg.cc@),
        msg.subject@,
        opt_view(msg.in_reply_to),
        refs,
        date@,
        uuid@,
    ));
    let mut v = write_lines(&lines);
    v.push('\r');
    v.push('\n');
    let body = chars_of(msg.body_text.as_str());
    extend_chars(&mut v, &body);
    string_of(&v)
}

/// The current time as the Date header writes it, in UTC
/// (`chrono::Utc::now` formatted with `%a, %d %b %Y %H:%M:%S +0000`).
/// Nothing is stated of the text: it is the clock's.
#[verifier::external_body]
pub(crate) fn date_header_now() -> String {
    chrono::Utc::now().format("%a, %d %b %Y %H:%M:%S +0000").to_string()
}

/// The raw RFC 5322 copy of `msg` for the Sent folder, dated now and with a
/// fresh Message-ID (see `raw_message_text`).
pub fn build_raw_message(msg: &OutgoingMessage) -> (r: String)
    ensures
        exists|date: Seq<char>, uuid: Seq<char>|
            crate::stamp::is_uuid_text(uuid) && r@ == #[trigger] raw_message_of(msg, date, uuid),
{
    let date = date_header_now();
    let uuid = new_uuid_v4();
    build_raw_message_with(msg, date.as_str(), uuid.as_str())
}


/// The domain taken from an address never holds `@`.
pub proof fn law_domain_has_no_at(email: Seq<char>)
    ensures
        !domain_of(email).contains('@'),
{
    lemma_first_index(email, is_at());
    match first_index(email, is_at()) {
        Some(k) => {
            let rest = email.skip(k + 1);
            lemma_first_index(rest, is_at());
            match first_index(rest, is_at()) {
                Some(j) => {
                    assert forall|i: int| 0 <= i < rest.take(j).len() implies rest.take(j)[i] != '@' by {
                        assert(rest.take(j)[i] == rest[i]);
                        assert(!is_at()(rest[i]));
                    }
                },
                None => {
                    assert forall|i: int| 0 <= i < rest.len() implies rest[i] != '@' by {
                        assert(!is_at()(rest[i]));
                    }
                },
            }
        },
        None => {
            reveal_strlit("localhost");
        },
    }
}

} // verus!
