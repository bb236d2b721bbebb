//! Storing fetched messages: each raw message is parsed, skipped when its
//! Message-ID is already stored, placed in its conversation and thread, and
//! stored with its attachments; the counters and previews of its
//! conversation and thread follow.

use vstd::prelude::*;

use super::threading::resolve_conversation_and_thread_at;
use crate::db::conversations::ConvUpdate;
use crate::db::threads::ThreadUpdate;
use crate::db::{Database, DbState, InsertMessage, InsertMessageView};
use crate::imap::mime::{mime_message_id, mime_parses};
use crate::imap::parse::{
    recorded_message_id, parse_email_with, parsed_attachment_views, parsed_email, ParsedAttachment,
    ParsedAttachmentView, ParsedEmail, ParsedEmailView,
};
use crate::models::{copy_opt_string, opt_view, AttachmentView, opt_str_view};
use crate::stamp::{new_uuid_v4, now_utc, UtcTime};
use crate::text::{str_eq, to_lowercase, unicode_lowercase};

verus! {

/// How many messages a synchronisation stored, skipped as already stored,
/// and failed to parse or store.
#[derive(Debug, Clone, Copy)]
pub struct SyncReport {
    pub new_messages: u32,
    pub skipped: u32,
    pub errors: u32,
}

/// What became of one fetched message.
#[derive(Debug, Clone, Copy, PartialEq, Eq, Structural)]
pub enum SyncOutcome {
    Stored,
    Skipped,
    Failed,
}

/// The lower-case hexadecimal digit for `n` (below 16).
pub open spec fn hex_digit(n: u32) -> char {
    if n < 10 {
        (n + 48) as char
    } else {
        (n + 87) as char
    }
}

/// How `serde_json` writes character `c` inside a JSON string: `"` and `\`
/// escaped with a backslash, backspace, form feed, line feed, carriage
/// return and tab as `\b`, `\f`, `\n`, `\r` and `\t`, any other
/// character below U+0020 as `\u00` and two lower-case hexadecimal digits,
/// every other character as it is.
pub open spec fn json_char(c: char) -> Seq<char> {
    let n = c as u32;
    if c == '"' {
        seq!['\\', '"']
    } else if c == '\\' {
        seq!['\\', '\\']
    } else if n == 8 {
        seq!['\\', 'b']
    } else if n == 12 {
        seq!['\\', 'f']
    } else if c == '\n' {
        seq!['\\', 'n']
    } else if c == '\r' {
        seq!['\\', 'r']
    } else if c == '\t' {
        seq!['\\', 't']
    } else if n < 32 {
        seq!['\\', 'u', '0', '0', hex_digit(n / 16), hex_digit(n % 16)]
    } else {
        seq![c]
    }
}

/// The characters of `s` as `serde_json` writes them inside a string.
pub open spec fn json_escaped(s: Seq<char>) -> Seq<char>
    decreases s.len(),
{
    if s.len() == 0 {
        seq![]
    } else {
        json_escaped(s.drop_last()) + json_char(s.last())
    }
}

/// The JSON text of string `s`, as `serde_json::to_string` writes it: its
/// characters escaped (see `json_char`) between double quotes.
pub open spec fn json_string_of(s: Seq<char>) -> Seq<char> {
    seq!['"'] + json_escaped(s) + seq!['"']
}

/// `serde_json::to_string` of a string (`format_escaped_str` with its
/// `ESCAPE` table and `write_char_escape`). Serialising a `String` does not
/// fail (serde_json fails only when a value's `Serialize` reports an error
/// or a map has keys that are not strings).
#[verifier::external_body]
fn encode_json_string(s: &String) -> (r: Option<String>)
    ensures
        r is Some,
        r.unwrap()@ == json_string_of(s@),
{
    serde_json::to_string(s).ok()
}

/// The attachment record stored for a parsed attachment of message `id`.
pub open spec fn attachment_record(id: i64, a: ParsedAttachmentView) -> AttachmentView {
    AttachmentView {
        id: 0,
        message_id: id,
        filename: a.filename,
        mime_type: Some(a.mime_type),
        size_bytes: Some(a.size_bytes as i64),
        local_path: None,
    }
}

impl DbState {
    /// Recording the attachments `atts` of message `id`, in order, passing
    /// over any that the store refuses.
    pub open spec fn record_attachments(self, id: i64, atts: Seq<ParsedAttachmentView>) -> DbState
        decreases atts.len(),
    {
        if atts.len() == 0 {
            self
        } else {
            self.record_attachments(id, atts.drop_last()).insert_attachment(
                attachment_record(id, atts.last()),
            ).0
        }
    }

    /// Storing parsed message `p` of `account`, received by `me`, contacts
    /// seen at `now`: skipped when its Message-ID is stored; otherwise placed
    /// (see `DbState::resolve`) and stored, read exactly when `me` sent it,
    /// its raw headers kept as JSON text; then the conversation's latest
    /// time, the unread counters (for a message not sent by `me`), the
    /// conversation's subject hint, the thread's latest time and the
    /// attachments follow. Refusals of these later steps are passed over.
    pub open spec fn store_parsed(self, p: ParsedEmailView, account: i64, me: Seq<char>, now: i64) -> (
        DbState,
        SyncOutcome,
    ) {
        if self.message_exists(p.message_id) {
            (self, SyncOutcome::Skipped)
        } else {
            let (s1, r1) = self.resolve(p, me, now);
            match r1 {
                Err(_) => (s1, SyncOutcome::Failed),
                Ok((c, t)) => s1.store_resolved(p, c, t, account, me),
            }
        }
    }

    /// Storing parsed message `p` in conversation `c` and thread `t` (see
    /// `store_parsed`).
    pub open spec fn store_resolved(self, p: ParsedEmailView, c: i64, t: i64, account: i64, me: Seq<char>) -> (
        DbState,
        SyncOutcome,
    ) {
        let outgoing = unicode_lowercase(p.from_email) == unicode_lowercase(me);
        let ins = InsertMessageView {
            conversation_id: c,
            thread_id: t,
            account_id: account,
            message_id: p.message_id,
            in_reply_to: p.in_reply_to,
            from_email: p.from_email,
            from_name: p.from_name,
            subject: p.subject,
            body_text: p.body_text,
            body_html: p.body_html,
            sent_at: p.sent_at,
            is_outgoing: outgoing,
            is_read: outgoing,
            raw_headers: Some(json_string_of(p.raw_headers)),
        };
        let (s2, r2) = self.insert_message(ins);
        match r2 {
            Err(_) => (s2, SyncOutcome::Failed),
            Ok(id) => {
                let s3 = s2.update_conversation(c, ConvUpdate::LastMessageAt(p.sent_at));
                let s4 = if !outgoing {
                    s3.increment_unread(c).0.increment_thread_unread(t).0
                } else {
                    s3
                };
                let s5 = match p.subject {
                    Some(sub) => s4.set_subject_hint(c, sub),
                    None => s4,
                };
                let s6 = s5.update_thread(t, ThreadUpdate::LastMessageAt(p.sent_at));
                (s6.record_attachments(id, p.attachments), SyncOutcome::Stored)
            },
        }
    }

    /// Storing raw message `raw` (see `store_parsed`), `fresh` standing in
    /// for a missing Message-ID and `now` for a missing Date and the time
    /// contacts are seen; bytes that do not parse fail.
    pub open spec fn sync_one(self, raw: Seq<u8>, account: i64, me: Seq<char>, fresh: Seq<char>, now: UtcTime) -> (
        DbState,
        SyncOutcome,
    ) {
        if !mime_parses(raw) {
            (self, SyncOutcome::Failed)
        } else {
            self.store_parsed(parsed_email(raw, fresh, now), account, me, now.secs)
        }
    }

    /// Storing the raw messages `raws` in order (message `i` with `fresh[i]`
    /// and `nows[i]`), with the counts of messages stored, skipped and failed.
    pub open spec fn sync_all(
        self,
        raws: Seq<Seq<u8>>,
        account: i64,
        me: Seq<char>,
        fresh: Seq<Seq<char>>,
        nows: Seq<UtcTime>,
    ) -> (DbState, (nat, nat, nat))
        decreases raws.len(),
    {
        if raws.len() == 0 {
            (self, (0, 0, 0))
        } else {
            let (s1, counts) = self.sync_all(raws.drop_last(), account, me, fresh, nows);
            let i = raws.len() - 1;
            let (s2, o) = s1.sync_one(raws.last(), account, me, fresh[i], nows[i]);
            (
                s2,
                match o {
                    SyncOutcome::Stored => (counts.0 + 1, counts.1, counts.2),
                    SyncOutcome::Skipped => (counts.0, counts.1 + 1, counts.2),
                    SyncOutcome::Failed => (counts.0, counts.1, counts.2 + 1),
                },
            )
        }
    }
}

/// The raw bytes of fetched messages (each given with its UID).
pub open spec fn raw_views(v: Seq<(u32, Vec<u8>)>) -> Seq<Seq<u8>> {
    v.map_values(|m: (u32, Vec<u8>)| m.1@)
}

/// Records the attachments of message `id` (see `DbState::record_attachments`).
fn record_attachments(db: &mut Database, id: i64, atts: &Vec<ParsedAttachment>)
    requires
        old(db).wf(),
    ensures
        final(db).wf(),
        final(db)@ == old(db)@.record_attachments(id, parsed_attachment_views(atts@)),
{
    let ghost av = parsed_attachment_views(atts@);
    let ghost start = db@;
    let mut i: usize = 0;
    assert(av.take(0) =~= Seq::<ParsedAttachmentView>::empty());
    while i < atts.len()
        invariant
            i <= atts.len(),
            av == parsed_attachment_views(atts@),
            db.wf(),
            start == old(db)@,
            db@ == start.record_attachments(id, av.take(i as int)),
        decreases atts.len() - i,
    {
        assert(av.take(i + 1).drop_last() =~= av.take(i as int));
        assert(av.take(i + 1).last() == atts@[i as int]@);
        let a = &atts[i];
        let filename = match &a.filename {
            Some(f) => Some(f.as_str()),
            None => None,
        };
        let size = a.size_bytes as i64;
        let _ = db.insert_attachment(id, filename, Some(a.mime_type.as_str()), Some(size), None);
        i = i + 1;
    }
    assert(av.take(atts.len() as int) =~= av);
}

/// Stores parsed message `parsed` (see `DbState::store_parsed`).
pub fn store_parsed(db: &mut Database, parsed: &ParsedEmail, account_id: i64, my_email: &str, now: i64) -> (r:
    SyncOutcome)
    requires
        old(db).wf(),
    ensures
        final(db).wf(),
        (final(db)@, r) == old(db)@.store_parsed(parsed@, account_id, my_email@, now),
{
    let exists = match db.message_exists(parsed.message_id.as_str()) {
        Ok(b) => b,
        Err(_) => false,
    };
    if exists {
        return SyncOutcome::Skipped;
    }
    let (conv_id, thread_id) = match resolve_conversation_and_thread_at(db, parsed, my_email, now) {
        Ok(found) => found,
        Err(_) => {
            return SyncOutcome::Failed;
        },
    };
    store_resolved(db, parsed, conv_id, thread_id, account_id, my_email)
}

/// Stores parsed message `parsed` in conversation `conv_id` and thread
/// `thread_id` (see `DbState::store_resolved`).
fn store_resolved(
    db: &mut Database,
    parsed: &ParsedEmail,
    conv_id: i64,
    thread_id: i64,
    account_id: i64,
    my_email: &str,
) -> (r: SyncOutcome)
    requires
        old(db).wf(),
    ensures
        final(db).wf(),
        (final(db)@, r) == old(db)@.store_resolved(parsed@, conv_id, thread_id, account_id, my_email@),
{
    let ghost p = parsed@;
    let ghost s0 = db@;
    let from_lower = to_lowercase(parsed.from_email.as_str());
    let my_lower = to_lowercase(my_email);
    let is_outgoing = str_eq(from_lower.as_str(), my_lower.as_str());
    let is_read = is_outgoing;
    let raw_headers_json = encode_json_string(&parsed.raw_headers);
    let insert = InsertMessage {
        conversation_id: conv_id,
        thread_id,
        account_id,
        message_id: parsed.message_id.clone(),
        in_reply_to: copy_opt_string(&parsed.in_reply_to),
        from_email: parsed.from_email.clone(),
        from_name: copy_opt_string(&parsed.from_name),
        subject: copy_opt_string(&parsed.subject),
        body_text: copy_opt_string(&parsed.body_text),
        body_html: copy_opt_string(&parsed.body_html),
        sent_at: parsed.sent_at,
        is_outgoing,
        is_read,
        raw_headers: raw_headers_json,
    };
    let ghost ins = insert@;
    assert(ins == InsertMessageView {
        conversation_id: conv_id,
        thread_id: thread_id,
        account_id: account_id,
        message_id: p.message_id,
        in_reply_to: p.in_reply_to,
        from_email: p.from_email,
        from_name: p.from_name,
        subject: p.subject,
        body_text: p.body_text,
        body_html: p.body_html,
        sent_at: p.sent_at,
        is_outgoing: unicode_lowercase(p.from_email) == unicode_lowercase(my_email@),
        is_read: unicode_lowercase(p.from_email) == unicode_lowercase(my_email@),
        raw_headers: Some(json_string_of(p.raw_headers)),
    });
    let msg_db_id = match db.insert_message(&insert) {
        Ok(id) => id,
        Err(_) => {
            return SyncOutcome::Failed;
        },
    };
    let ghost s2 = db@;
    let preview = match &parsed.body_text {
        Some(t) => Some(t.as_str()),
        None => None,
    };
    let _ = db.update_conversation_last_message(conv_id, parsed.sent_at, preview);
    let ghost s3 = db@;
    assert(s3 == s2.update_conversation(conv_id, ConvUpdate::LastMessageAt(p.sent_at)));
    if !is_outgoing && !is_read {
        let _ = db.increment_unread(conv_id);
        let _ = db.increment_thread_unread(thread_id);
    }
    let ghost s4 = db@;
    assert(s4 == if !is_outgoing {
        s3.increment_unread(conv_id).0.increment_thread_unread(thread_id).0
    } else {
        s3
    });
    if let Some(subj) = &parsed.subject {
        let _ = db.set_conversation_subject_hint(conv_id, subj.as_str());
    }
    let ghost s5 = db@;
    assert(s5 == match p.subject {
        Some(sub) => s4.set_subject_hint(conv_id, sub),
        None => s4,
    });
    let _ = db.update_thread_last_message(thread_id, parsed.sent_at);
    let ghost s6 = db@;
    assert(s6 == s5.update_thread(thread_id, ThreadUpdate::LastMessageAt(p.sent_at)));
    record_attachments(db, msg_db_id, &parsed.attachments);
    assert(db@ == s6.record_attachments(msg_db_id, p.attachments));
    SyncOutcome::Stored
}

/// Stores raw message `raw` (see `DbState::sync_one`).
pub fn sync_one_with(db: &mut Database, raw: &[u8], account_id: i64, my_email: &str, fresh_id: &str, now: UtcTime) -> (r:
    SyncOutcome)
    requires
        old(db).wf(),
    ensures
        final(db).wf(),
        (final(db)@, r) == old(db)@.sync_one(raw@, account_id, my_email@, fresh_id@, now),
{
    match parse_email_with(raw, fresh_id, now) {
        Ok(parsed) => store_parsed(db, &parsed, account_id, my_email, now.secs),
        Err(_) => SyncOutcome::Failed,
    }
}

/// Stores fetched messages in order and reports how many were stored,
/// skipped as already stored, and failed (see `DbState::sync_all`): each
/// message gets a fresh random identifier for a missing Message-ID and the
/// current time. Counts are `u32`, so at most `u32::MAX` messages are taken.
pub fn perform_sync_internal(
    db: &mut Database,
    raw_messages: Vec<(u32, Vec<u8>)>,
    account_id: i64,
    my_email: &str,
) -> (r: SyncReport)
    requires
        old(db).wf(),
        raw_messages@.len() <= u32::MAX,
    ensures
        final(db).wf(),
        r.new_messages + r.skipped + r.errors == raw_messages@.len(),
        exists|fresh: Seq<Seq<char>>, nows: Seq<UtcTime>|
            #![trigger old(db)@.sync_all(raw_views(raw_messages@), account_id, my_email@, fresh, nows)]
            {
                let (s, counts) = old(db)@.sync_all(raw_views(raw_messages@), account_id, my_email@, fresh, nows);
                &&& fresh.len() == raw_messages@.len()
                &&& nows.len() == raw_messages@.len()
                &&& final(db)@ == s
                &&& r.new_messages == counts.0
                &&& r.skipped == counts.1
                &&& r.errors == counts.2
            },
{
    let ghost raws = raw_views(raw_messages@);
    let ghost start = db@;
    let ghost mut fresh: Seq<Seq<char>> = seq![];
    let ghost mut nows: Seq<UtcTime> = seq![];
    let mut new_messages: u32 = 0;
    let mut skipped: u32 = 0;
    let mut errors: u32 = 0;
    let mut i: usize = 0;
    assert(raws.take(0) =~= Seq::<Seq<u8>>::empty());
    while i < raw_messages.len()
        invariant
            i <= raw_messages.len(),
            raw_messages@.len() <= u32::MAX,
            raws == raw_views(raw_messages@),
            db.wf(),
            start == old(db)@,
            fresh.len() == i,
            nows.len() == i,
            new_messages + skipped + errors == i,
            start.sync_all(raws.take(i as int), account_id, my_email@, fresh, nows) == (
                db@,
                (new_messages as nat, skipped as nat, errors as nat),
            ),
        decreases raw_messages.len() - i,
    {
        let fresh_id = new_uuid_v4();
        let now = now_utc();
        let ghost before = db@;
        let ghost old_counts = (new_messages as nat, skipped as nat, errors as nat);
        let ghost old_fresh = fresh;
        let ghost old_nows = nows;
        proof {
            fresh = fresh.push(fresh_id@);
            nows = nows.push(now);
        }
        let outcome = sync_one_with(db, raw_messages[i].1.as_slice(), account_id, my_email, fresh_id.as_str(), now);
        match outcome {
            SyncOutcome::Stored => {
                new_messages = new_messages + 1;
            },
            SyncOutcome::Skipped => {
                skipped = skipped + 1;
            },
            SyncOutcome::Failed => {
                errors = errors + 1;
            },
        }
        proof {
            let t = raws.take(i + 1);
            assert(t.drop_last() =~= raws.take(i as int));
            assert(t.last() == raw_messages@[i as int].1@);
            lemma_sync_all_prefix(start, raws.take(i as int), account_id, my_email@, fresh, nows, old_fresh, old_nows);
            assert(start.sync_all(t.drop_last(), account_id, my_email@, fresh, nows) == (before, old_counts));
            assert(fresh[i as int] == fresh_id@);
            assert(nows[i as int] == now);
            assert(before.sync_one(t.last(), account_id, my_email@, fresh[i as int], nows[i as int]) == (db@, outcome));
        }
        i = i + 1;
    }
    assert(raws.take(raw_messages.len() as int) =~= raws);
    SyncReport { new_messages, skipped, errors }
}

/// Only the first `raws.len()` identifiers and times matter.
proof fn lemma_sync_all_prefix(
    s: DbState,
    raws: Seq<Seq<u8>>,
    account: i64,
    me: Seq<char>,
    fresh: Seq<Seq<char>>,
    nows: Seq<UtcTime>,
    fresh2: Seq<Seq<char>>,
    nows2: Seq<UtcTime>,
)
    requires
        fresh.len() >= raws.len(),
        nows.len() >= raws.len(),
        fresh2.len() >= raws.len(),
        nows2.len() >= raws.len(),
        forall|k: int| 0 <= k < raws.len() ==> fresh[k] == fresh2[k] && nows[k] == nows2[k],
    ensures
        s.sync_all(raws, account, me, fresh, nows) == s.sync_all(raws, account, me, fresh2, nows2),
    decreases raws.len(),
{
    if raws.len() > 0 {
        lemma_sync_all_prefix(s, raws.drop_last(), account, me, fresh, nows, fresh2, nows2);
    }
}

// ─── Laws ────────────────────────────────────────────────────────────────────

/// Recording attachments leaves the messages as they are.
proof fn lemma_record_attachments_keeps_messages(s: DbState, id: i64, atts: Seq<ParsedAttachmentView>)
    ensures
        s.record_attachments(id, atts).messages == s.messages,
    decreases atts.len(),
{
    if atts.len() > 0 {
        lemma_record_attachments_keeps_messages(s, id, atts.drop_last());
    }
}

/// A message that was stored is there afterwards, so storing it again (at
/// any time) skips it and changes nothing.
pub proof fn law_stored_message_is_skipped_after(
    s: DbState,
    p: ParsedEmailView,
    account: i64,
    me: Seq<char>,
    now: i64,
    later: i64,
)
    requires
        s.store_parsed(p, account, me, now).1 == SyncOutcome::Stored,
    ensures
        ({
            let t = s.store_parsed(p, account, me, now).0;
            &&& t.message_exists(p.message_id)
            &&& t.store_parsed(p, account, me, later) == (t, SyncOutcome::Skipped)
        }),
{
    let (s1, r1) = s.resolve(p, me, now);
    let (c, th) = r1.unwrap();
    let outgoing = unicode_lowercase(p.from_email) == unicode_lowercase(me);
    let ins = InsertMessageView {
        conversation_id: c,
        thread_id: th,
        account_id: account,
        message_id: p.message_id,
        in_reply_to: p.in_reply_to,
        from_email: p.from_email,
        from_name: p.from_name,
        subject: p.subject,
        body_text: p.body_text,
        body_html: p.body_html,
        sent_at: p.sent_at,
        is_outgoing: outgoing,
        is_read: outgoing,
        raw_headers: Some(json_string_of(p.raw_headers)),
    };
    crate::db::laws::law_inserted_message_exists(s1, ins);
    let (s2, r2) = s1.insert_message(ins);
    let id = r2.unwrap();
    let s3 = s2.update_conversation(c, ConvUpdate::LastMessageAt(p.sent_at));
    let s4 = if !outgoing {
        s3.increment_unread(c).0.increment_thread_unread(th).0
    } else {
        s3
    };
    let s5 = match p.subject {
        Some(sub) => s4.set_subject_hint(c, sub),
        None => s4,
    };
    let s6 = s5.update_thread(th, ThreadUpdate::LastMessageAt(p.sent_at));
    lemma_record_attachments_keeps_messages(s6, id, p.attachments);
    assert(s6.messages == s2.messages);
}

/// Fetching a message that carries a Message-ID again after it was stored
/// skips it. (A message without one gets a fresh identifier each time, so
/// it is stored again.)
pub proof fn law_resync_skips_stored_message(
    s: DbState,
    raw: Seq<u8>,
    account: i64,
    me: Seq<char>,
    fresh: Seq<char>,
    now: UtcTime,
    fresh2: Seq<char>,
    later: UtcTime,
)
    requires
        crate::imap::mime::mime_message_id(raw) is Some,
        s.sync_one(raw, account, me, fresh, now).1 == SyncOutcome::Stored,
    ensures
        ({
            let t = s.sync_one(raw, account, me, fresh, now).0;
            t.sync_one(raw, account, me, fresh2, later) == (t, SyncOutcome::Skipped)
        }),
{
    let p = parsed_email(raw, fresh, now);
    let p2 = parsed_email(raw, fresh2, later);
    assert(p.message_id == p2.message_id);
    law_stored_message_is_skipped_after(s, p, account, me, now.secs, later.secs);
    let t = s.store_parsed(p, account, me, now.secs).0;
    assert(t.message_exists(p2.message_id));
}

/// Every fetched message is counted once: as stored, skipped or failed.
pub proof fn law_sync_counts_every_message(
    s: DbState,
    raws: Seq<Seq<u8>>,
    account: i64,
    me: Seq<char>,
    fresh: Seq<Seq<char>>,
    nows: Seq<UtcTime>,
)
    ensures
        ({
            let counts = s.sync_all(raws, account, me, fresh, nows).1;
            counts.0 + counts.1 + counts.2 == raws.len()
        }),
    decreases raws.len(),
{
    if raws.len() > 0 {
        law_sync_counts_every_message(s, raws.drop_last(), account, me, fresh, nows);
    }
}


// ─── A second synchronisation ────────────────────────────────────────────────

/// `t` holds the messages of `s` at their places, perhaps with more after.
pub open spec fn keeps_messages(s: DbState, t: DbState) -> bool {
    &&& s.messages.len() <= t.messages.len()
    &&& forall|i: int| 0 <= i < s.messages.len() ==> #[trigger] t.messages[i] == s.messages[i]
}

/// A fetched message that is settled in `s`: it does not parse, or a
/// message with its Message-ID is stored.
pub open spec fn settled(s: DbState, raw: Seq<u8>) -> bool {
    !mime_parses(raw) || s.message_exists(recorded_message_id(mime_message_id(raw), seq![]))
}

/// How many of `raws` are not settled in `s`.
pub open spec fn unsettled_count(s: DbState, raws: Seq<Seq<u8>>) -> nat
    decreases raws.len(),
{
    if raws.len() == 0 {
        0
    } else {
        unsettled_count(s, raws.drop_last()) + if settled(s, raws.last()) {
            0nat
        } else {
            1nat
        }
    }
}

proof fn lemma_keeps_messages_trans(a: DbState, b: DbState, c: DbState)
    requires
        keeps_messages(a, b),
        keeps_messages(b, c),
    ensures
        keeps_messages(a, c),
{
    assert forall|i: int| 0 <= i < a.messages.len() implies #[trigger] c.messages[i] == a.messages[i] by {
        assert(b.messages[i] == a.messages[i]);
    }
}

/// A stored Message-ID stays stored where the messages are kept.
proof fn lemma_exists_kept(s: DbState, t: DbState, mid: Seq<char>)
    requires
        keeps_messages(s, t),
        s.message_exists(mid),
    ensures
        t.message_exists(mid),
{
    let p = crate::db::messages::message_has_mid(mid);
    crate::db::lemma_first_index(s.messages, p);
    let i = crate::db::first_index(s.messages, p).unwrap();
    assert forall|k: int| 0 <= k < i implies !p(#[trigger] t.messages[k]) by {
        assert(t.messages[k] == s.messages[k]);
    }
    assert(t.messages[i] == s.messages[i]);
    crate::db::lemma_first_index_at(t.messages, p, i);
}

/// Fewer messages are unsettled where more are kept.
proof fn lemma_unsettled_kept(s: DbState, t: DbState, raws: Seq<Seq<u8>>)
    requires
        keeps_messages(s, t),
    ensures
        unsettled_count(t, raws) <= unsettled_count(s, raws),
    decreases raws.len(),
{
    if raws.len() > 0 {
        lemma_unsettled_kept(s, t, raws.drop_last());
        if settled(s, raws.last()) && mime_parses(raws.last()) {
            lemma_exists_kept(s, t, recorded_message_id(mime_message_id(raws.last()), seq![]));
        }
    }
}

/// Storing a fetched message keeps the messages; once it is stored or
/// skipped, it is settled.
proof fn lemma_sync_one_facts(s: DbState, raw: Seq<u8>, account: i64, me: Seq<char>, fresh: Seq<char>, now: UtcTime)
    requires
        crate::imap::mime::mime_message_id(raw) is Some,
    ensures
        ({
            let (t, o) = s.sync_one(raw, account, me, fresh, now);
            &&& keeps_messages(s, t)
            &&& o != SyncOutcome::Failed ==> settled(t, raw)
        }),
{
    let (t, o) = s.sync_one(raw, account, me, fresh, now);
    if mime_parses(raw) {
        let p = parsed_email(raw, fresh, now);
        assert(p.message_id == recorded_message_id(mime_message_id(raw), seq![]));
        if !s.message_exists(p.message_id) {
            super::matching::lemma_resolve_keeps_messages(s, p, me, now.secs);
            let (s1, r1) = s.resolve(p, me, now.secs);
            if let Ok((c, th)) = r1 {
                let outgoing = unicode_lowercase(p.from_email) == unicode_lowercase(me);
                let ins = InsertMessageView {
                    conversation_id: c,
                    thread_id: th,
                    account_id: account,
                    message_id: p.message_id,
                    in_reply_to: p.in_reply_to,
                    from_email: p.from_email,
                    from_name: p.from_name,
                    subject: p.subject,
                    body_text: p.body_text,
                    body_html: p.body_html,
                    sent_at: p.sent_at,
                    is_outgoing: outgoing,
                    is_read: outgoing,
                    raw_headers: Some(json_string_of(p.raw_headers)),
                };
                let (s2, r2) = s1.insert_message(ins);
                if let Ok(id) = r2 {
                    let s3 = s2.update_conversation(c, ConvUpdate::LastMessageAt(p.sent_at));
                    let s4 = if !outgoing {
                        s3.increment_unread(c).0.increment_thread_unread(th).0
                    } else {
                        s3
                    };
                    let s5 = match p.subject {
                        Some(sub) => s4.set_subject_hint(c, sub),
                        None => s4,
                    };
                    let s6 = s5.update_thread(th, ThreadUpdate::LastMessageAt(p.sent_at));
                    lemma_record_attachments_keeps_messages(s6, id, p.attachments);
                    assert(s6.messages == s2.messages);
                    law_stored_message_is_skipped_after(s, p, account, me, now.secs, now.secs);
                }
            }
        }
    }
}

/// The first run: the messages are kept, and no more of the fetched
/// messages are left unsettled than failed.
proof fn lemma_first_run(
    s: DbState,
    raws: Seq<Seq<u8>>,
    account: i64,
    me: Seq<char>,
    fresh: Seq<Seq<char>>,
    nows: Seq<UtcTime>,
)
    requires
        forall|k: int| 0 <= k < raws.len() ==> crate::imap::mime::mime_message_id(#[trigger] raws[k]) is Some,
    ensures
        ({
            let (t, counts) = s.sync_all(raws, account, me, fresh, nows);
            &&& keeps_messages(s, t)
            &&& unsettled_count(t, raws) <= counts.2
        }),
    decreases raws.len(),
{
    if raws.len() == 0 {
    } else {
        let init = raws.drop_last();
        assert forall|k: int| 0 <= k < init.len() implies crate::imap::mime::mime_message_id(#[trigger] init[k])
            is Some by {
            assert(init[k] == raws[k]);
        }
        lemma_first_run(s, init, account, me, fresh, nows);
        let (t1, c1) = s.sync_all(init, account, me, fresh, nows);
        let i = raws.len() - 1;
        assert(raws.last() == raws[i]);
        lemma_sync_one_facts(t1, raws.last(), account, me, fresh[i], nows[i]);
        let (t2, o) = t1.sync_one(raws.last(), account, me, fresh[i], nows[i]);
        lemma_keeps_messages_trans(s, t1, t2);
        lemma_unsettled_kept(t1, t2, init);
    }
}

/// The second run, on a store that keeps the first run's messages: no more
/// are stored than were left unsettled.
proof fn lemma_second_run(
    s1: DbState,
    u: DbState,
    raws: Seq<Seq<u8>>,
    account: i64,
    me: Seq<char>,
    fresh: Seq<Seq<char>>,
    nows: Seq<UtcTime>,
)
    requires
        keeps_messages(s1, u),
        forall|k: int| 0 <= k < raws.len() ==> crate::imap::mime::mime_message_id(#[trigger] raws[k]) is Some,
    ensures
        keeps_messages(u, u.sync_all(raws, account, me, fresh, nows).0),
        u.sync_all(raws, account, me, fresh, nows).1.0 <= unsettled_count(s1, raws),
    decreases raws.len(),
{
    if raws.len() > 0 {
        let init = raws.drop_last();
        assert forall|k: int| 0 <= k < init.len() implies crate::imap::mime::mime_message_id(#[trigger] init[k])
            is Some by {
            assert(init[k] == raws[k]);
        }
        lemma_second_run(s1, u, init, account, me, fresh, nows);
        let (v1, c1) = u.sync_all(init, account, me, fresh, nows);
        let i = raws.len() - 1;
        assert(raws.last() == raws[i]);
        let raw = raws.last();
        lemma_sync_one_facts(v1, raw, account, me, fresh[i], nows[i]);
        let (v2, o) = v1.sync_one(raw, account, me, fresh[i], nows[i]);
        lemma_keeps_messages_trans(u, v1, v2);
        if settled(s1, raw) && mime_parses(raw) {
            lemma_keeps_messages_trans(s1, u, v1);
            let mid = recorded_message_id(mime_message_id(raw), seq![]);
            lemma_exists_kept(s1, v1, mid);
            assert(parsed_email(raw, fresh[i], nows[i]).message_id == mid);
        }
    }
}

/// Fetching the same messages again (each with a Message-ID) stores no
/// more than the first time failed to: a second synchronisation after one
/// without failures stores nothing new.
pub proof fn law_second_sync_stores_only_failed(
    s: DbState,
    raws: Seq<Seq<u8>>,
    account: i64,
    me: Seq<char>,
    fresh1: Seq<Seq<char>>,
    nows1: Seq<UtcTime>,
    fresh2: Seq<Seq<char>>,
    nows2: Seq<UtcTime>,
)
    requires
        forall|k: int| 0 <= k < raws.len() ==> crate::imap::mime::mime_message_id(#[trigger] raws[k]) is Some,
    ensures
        ({
            let (s1, counts1) = s.sync_all(raws, account, me, fresh1, nows1);
            let counts2 = s1.sync_all(raws, account, me, fresh2, nows2).1;
            counts2.0 <= counts1.2
        }),
{
    lemma_first_run(s, raws, account, me, fresh1, nows1);
    let (s1, counts1) = s.sync_all(raws, account, me, fresh1, nows1);
    assert(keeps_messages(s1, s1));
    lemma_second_run(s1, s1, raws, account, me, fresh2, nows2);
}


/// What storing one fetched message does: it is skipped, changing nothing,
/// exactly when it parses and its Message-ID is stored already; bytes that
/// do not parse fail and change nothing; a message that is stored can be
/// found by its Message-ID, for `account`, outgoing exactly when its sender
/// is `me` (compared lower-cased), and read exactly when outgoing.
pub proof fn law_sync_one_outcome(s: DbState, raw: Seq<u8>, account: i64, me: Seq<char>, fresh: Seq<char>, now: UtcTime)
    ensures
        ({
            let p = parsed_email(raw, fresh, now);
            let (t, o) = s.sync_one(raw, account, me, fresh, now);
            &&& (o == SyncOutcome::Skipped) == (mime_parses(raw) && s.message_exists(p.message_id))
            &&& o == SyncOutcome::Skipped ==> t == s
            &&& !mime_parses(raw) ==> o == SyncOutcome::Failed && t == s
            &&& o == SyncOutcome::Stored ==> (t.message_by_mid(p.message_id) matches Some(m) && m.account_id
                == account && m.is_outgoing == (unicode_lowercase(p.from_email) == unicode_lowercase(me))
                && m.is_read == m.is_outgoing)
        }),
{
    let p = parsed_email(raw, fresh, now);
    let (t, o) = s.sync_one(raw, account, me, fresh, now);
    if mime_parses(raw) && !s.message_exists(p.message_id) {
        super::matching::lemma_resolve_keeps_messages(s, p, me, now.secs);
        let (s1, r1) = s.resolve(p, me, now.secs);
        if let Ok((c, th)) = r1 {
            let outgoing = unicode_lowercase(p.from_email) == unicode_lowercase(me);
            let ins = InsertMessageView {
                conversation_id: c,
                thread_id: th,
                account_id: account,
                message_id: p.message_id,
                in_reply_to: p.in_reply_to,
                from_email: p.from_email,
                from_name: p.from_name,
                subject: p.subject,
                body_text: p.body_text,
                body_html: p.body_html,
                sent_at: p.sent_at,
                is_outgoing: outgoing,
                is_read: outgoing,
                raw_headers: Some(json_string_of(p.raw_headers)),
            };
            let (s2, r2) = s1.insert_message(ins);
            if let Ok(id) = r2 {
                let s3 = s2.update_conversation(c, ConvUpdate::LastMessageAt(p.sent_at));
                let s4 = if !outgoing {
                    s3.increment_unread(c).0.increment_thread_unread(th).0
                } else {
                    s3
                };
                let s5 = match p.subject {
                    Some(sub) => s4.set_subject_hint(c, sub),
                    None => s4,
                };
                let s6 = s5.update_thread(th, ThreadUpdate::LastMessageAt(p.sent_at));
                lemma_record_attachments_keeps_messages(s6, id, p.attachments);
                assert(s6.messages == s2.messages);
                let pm = crate::db::messages::message_has_mid(p.message_id);
                crate::db::lemma_first_index(s1.messages, pm);
                let n = s1.messages.len() as int;
                assert(s2.messages == s1.messages.push(ins.row(id)));
                assert forall|k: int| 0 <= k < n implies !pm(#[trigger] s2.messages[k]) by {
                    assert(s2.messages[k] == s1.messages[k]);
                }
                assert(pm(s2.messages[n]));
                crate::db::lemma_first_index_at(s2.messages, pm, n);
            }
        }
    }
}

/// A stored count of zero means every fetched message is settled.
proof fn lemma_none_unsettled(s: DbState, raws: Seq<Seq<u8>>)
    requires
        unsettled_count(s, raws) == 0,
    ensures
        forall|k: int| 0 <= k < raws.len() ==> settled(s, #[trigger] raws[k]),
    decreases raws.len(),
{
    if raws.len() > 0 {
        lemma_none_unsettled(s, raws.drop_last());
        assert forall|k: int| 0 <= k < raws.len() implies settled(s, #[trigger] raws[k]) by {
            if k < raws.len() - 1 {
                assert(raws.drop_last()[k] == raws[k]);
            }
        }
    }
}

/// Fetched messages that parse and are all stored already are all skipped,
/// and the store stays as it is.
proof fn lemma_all_skipped(
    u: DbState,
    raws: Seq<Seq<u8>>,
    account: i64,
    me: Seq<char>,
    fresh: Seq<Seq<char>>,
    nows: Seq<UtcTime>,
)
    requires
        forall|k: int|
            0 <= k < raws.len() ==> mime_parses(#[trigger] raws[k]) && mime_message_id(raws[k]) is Some
                && settled(u, raws[k]),
    ensures
        u.sync_all(raws, account, me, fresh, nows) == (u, (0nat, raws.len(), 0nat)),
    decreases raws.len(),
{
    if raws.len() > 0 {
        let init = raws.drop_last();
        assert forall|k: int| 0 <= k < init.len() implies mime_parses(#[trigger] init[k])
            && mime_message_id(init[k]) is Some && settled(u, init[k]) by {
            assert(init[k] == raws[k]);
        }
        lemma_all_skipped(u, init, account, me, fresh, nows);
        let i = raws.len() - 1;
        assert(raws.last() == raws[i]);
        let p = parsed_email(raws.last(), fresh[i], nows[i]);
        assert(p.message_id == recorded_message_id(mime_message_id(raws.last()), seq![]));
    }
}

/// Fetching again, after a synchronisation without failures, messages that
/// all parse and carry a Message-ID skips every one of them and leaves the
/// store as it is.
pub proof fn law_second_sync_skips_everything(
    s: DbState,
    raws: Seq<Seq<u8>>,
    account: i64,
    me: Seq<char>,
    fresh1: Seq<Seq<char>>,
    nows1: Seq<UtcTime>,
    fresh2: Seq<Seq<char>>,
    nows2: Seq<UtcTime>,
)
    requires
        forall|k: int| 0 <= k < raws.len() ==> mime_parses(#[trigger] raws[k]) && mime_message_id(raws[k]) is Some,
        s.sync_all(raws, account, me, fresh1, nows1).1.2 == 0,
    ensures
        ({
            let s1 = s.sync_all(raws, account, me, fresh1, nows1).0;
            s1.sync_all(raws, account, me, fresh2, nows2) == (s1, (0nat, raws.len(), 0nat))
        }),
{
    lemma_first_run(s, raws, account, me, fresh1, nows1);
    let s1 = s.sync_all(raws, account, me, fresh1, nows1).0;
    lemma_none_unsettled(s1, raws);
    lemma_all_skipped(s1, raws, account, me, fresh2, nows2);
}

} // verus!
