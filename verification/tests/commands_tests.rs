use meridian_mail::stamp::UtcTime;
use meridian_mail::commands::accounts::parse_macos_accounts;
use meridian_mail::commands::send::{compose_outgoing, record_sent_message, SendMessagePayload};
use meridian_mail::commands::subject::{compose_references, compose_subject, normalize_subject};
use meridian_mail::commands::sync::{perform_sync_internal, sync_one_with, SyncOutcome};
use meridian_mail::commands::threading::{
    create_conversation_for_participants, resolve_conversation_and_thread_at,
};
use meridian_mail::db::Database;
use meridian_mail::imap::parse::parse_email_with;
use meridian_mail::models::{Account, ConversationKind, MemberRole, NewAccount};

fn new_account(email: &str) -> NewAccount {
    NewAccount {
        email: email.to_string(),
        display_name: Some("Me".to_string()),
        imap_host: "imap.example.com".to_string(),
        imap_port: 993,
        smtp_host: "smtp.example.com".to_string(),
        smtp_port: 587,
        password: "secret".to_string(),
    }
}

fn setup() -> (Database, Account) {
    let mut db = Database::open_in_memory().unwrap();
    let id = db.insert_account(&new_account("me@example.com"), "me@example.com").unwrap();
    let acc = db.get_account(id).unwrap();
    (db, acc)
}

#[test]
fn normalize_subject_strips_reply_prefixes() {
    assert_eq!(normalize_subject(Some("Re: Fwd: RE: Lunch")), "Lunch");
    assert_eq!(normalize_subject(Some("AW:  fw: Plan ")), "Plan");
    assert_eq!(normalize_subject(Some("Re:")), "(no subject)");
    assert_eq!(normalize_subject(None), "(no subject)");
    assert_eq!(normalize_subject(Some("Report")), "Report");
    assert_eq!(normalize_subject(Some("re re: x")), "x");
}

#[test]
fn normalize_subject_is_idempotent_on_examples() {
    for s in ["Re: Re: a", "Fwd:", "  Re: b", "x"] {
        let once = normalize_subject(Some(s));
        assert_eq!(normalize_subject(Some(&once)), once);
    }
}

fn raw(headers: &str, body: &str) -> Vec<u8> {
    format!("{headers}\r\n\r\n{body}").into_bytes()
}

#[test]
fn direct_message_gets_a_dialogue_and_a_thread() {
    let (mut db, acc) = setup();
    let bytes = raw("From: Alice <alice@example.com>\r\nTo: me@example.com\r\nSubject: Re: Lunch\r\nMessage-ID: <1@x>", "hi");
    let parsed = parse_email_with(&bytes, "u", UtcTime::from_secs(10)).unwrap();
    let (conv, thread) = resolve_conversation_and_thread_at(&mut db, &parsed, &acc.email, 10).unwrap();
    let members = db.get_conversation_members(conv).unwrap();
    assert_eq!(members.len(), 2);
    let t = db.get_thread(thread).unwrap();
    assert_eq!(t.subject, "Re: Lunch");
    assert_eq!(t.normalized_subject, "Lunch");
    // A second message from the same person reuses the dialogue.
    let bytes2 = raw("From: alice@example.com\r\nTo: me@example.com\r\nSubject: Other\r\nMessage-ID: <2@x>", "hi");
    let parsed2 = parse_email_with(&bytes2, "u", UtcTime::from_secs(11)).unwrap();
    let (conv2, thread2) = resolve_conversation_and_thread_at(&mut db, &parsed2, &acc.email, 11).unwrap();
    assert_eq!(conv2, conv);
    assert_ne!(thread2, thread);
}

#[test]
fn group_message_records_cc_roles() {
    let (mut db, acc) = setup();
    let bytes = raw("From: alice@example.com\r\nTo: ME@example.com, bob@example.com\r\nCc: carol@example.com\r\nSubject: Plan\r\nMessage-ID: <g@x>", "hi");
    let parsed = parse_email_with(&bytes, "u", UtcTime::from_secs(10)).unwrap();
    let (conv, _) = resolve_conversation_and_thread_at(&mut db, &parsed, &acc.email, 10).unwrap();
    let members = db.get_conversation_members(conv).unwrap();
    assert_eq!(members.len(), 4);
    let carol = members.iter().find(|m| m.contact.email == "carol@example.com").unwrap();
    assert_eq!(carol.role, MemberRole::Cc);
    let bob = members.iter().find(|m| m.contact.email == "bob@example.com").unwrap();
    assert_eq!(bob.role, MemberRole::To);
}

#[test]
fn newsletter_goes_to_the_sender_channel() {
    let (mut db, acc) = setup();
    let bytes = raw("From: news@shop.example\r\nTo: me@example.com\r\nSubject: Sale\r\nList-Unsubscribe: <mailto:x@y>\r\nMessage-ID: <n1@x>", "deals");
    let parsed = parse_email_with(&bytes, "u", UtcTime::from_secs(10)).unwrap();
    assert!(parsed.is_newsletter);
    let (conv, _) = resolve_conversation_and_thread_at(&mut db, &parsed, &acc.email, 10).unwrap();
    let members = db.get_conversation_members(conv).unwrap();
    assert_eq!(members.len(), 1);
    assert_eq!(members[0].contact.email, "news@shop.example");
    let bytes2 = raw("From: news@shop.example\r\nTo: me@example.com\r\nSubject: More\r\nList-Unsubscribe: <mailto:x@y>\r\nMessage-ID: <n2@x>", "deals");
    let parsed2 = parse_email_with(&bytes2, "u", UtcTime::from_secs(11)).unwrap();
    let (conv2, _) = resolve_conversation_and_thread_at(&mut db, &parsed2, &acc.email, 11).unwrap();
    assert_eq!(conv2, conv);
}

#[test]
fn sync_stores_new_messages_and_skips_known_ones() {
    let (mut db, acc) = setup();
    let m1 = raw("From: alice@example.com\r\nTo: me@example.com\r\nSubject: Lunch\r\nMessage-ID: <1@x>", "Lunch at noon?");
    let m2 = raw("From: me@example.com\r\nTo: alice@example.com\r\nSubject: Re: Lunch\r\nIn-Reply-To: <1@x>\r\nMessage-ID: <2@x>", "Sure");
    let report = perform_sync_internal(&mut db, vec![(1, m1.clone()), (2, m2), (3, Vec::new())], acc.id, &acc.email);
    assert_eq!(report.new_messages, 2);
    assert_eq!(report.skipped, 0);
    assert_eq!(report.errors, 1);
    let again = perform_sync_internal(&mut db, vec![(1, m1)], acc.id, &acc.email);
    assert_eq!(again.skipped, 1);
    assert_eq!(again.new_messages, 0);

    let convs = db.list_conversations(acc.id).unwrap();
    assert_eq!(convs.len(), 1);
    assert_eq!(convs[0].unread_count, 1);
    let msgs = db.get_messages_for_conversation(convs[0].id, None, None).unwrap();
    assert_eq!(msgs.len(), 2);
    assert!(msgs.iter().any(|m| m.is_outgoing && m.is_read));
    assert_eq!(msgs[0].thread_id, msgs[1].thread_id);
}

#[test]
fn sync_one_reports_parse_failure() {
    let (mut db, acc) = setup();
    assert_eq!(sync_one_with(&mut db, b"", acc.id, &acc.email, "u", UtcTime::from_secs(0)), SyncOutcome::Failed);
}

#[test]
fn reply_subject_and_references_follow_the_original() {
    let (mut db, acc) = setup();
    let m1 = raw("From: alice@example.com\r\nTo: me@example.com\r\nSubject: Lunch\r\nMessage-ID: <1@x>", "Lunch?");
    perform_sync_internal(&mut db, vec![(1, m1)], acc.id, &acc.email);
    assert_eq!(compose_subject(&db, None, Some("<1@x>")), "Re: Lunch");
    assert_eq!(compose_subject(&db, None, Some("<unknown@x>")), "Re: (no subject)");
    assert_eq!(compose_subject(&db, Some("Mine"), Some("<1@x>")), "Mine");
    assert_eq!(compose_subject(&db, None, None), "(no subject)");
    assert_eq!(compose_references(&db, Some("<1@x>")), vec!["<1@x>".to_string()]);
    assert!(compose_references(&db, None).is_empty());
}

#[test]
fn sent_reply_joins_the_original_thread() {
    let (mut db, acc) = setup();
    let m1 = raw("From: alice@example.com\r\nTo: me@example.com\r\nSubject: Lunch\r\nMessage-ID: <1@x>", "Lunch?");
    perform_sync_internal(&mut db, vec![(1, m1)], acc.id, &acc.email);
    let payload = SendMessagePayload {
        to: vec![("alice@example.com".to_string(), None)],
        cc: None,
        bcc: None,
        subject: None,
        body: "Sure".to_string(),
        in_reply_to_message_id: Some("<1@x>".to_string()),
    };
    let sent = record_sent_message(&mut db, &acc, &payload, "Re: Lunch", "<s1@example.com>", UtcTime { secs: 500, nanos: 250 }).unwrap();
    assert!(sent.is_outgoing && sent.is_read);
    assert_eq!(sent.sent_at, UtcTime { secs: 500, nanos: 250 });
    let original = db.get_messages_for_conversation(sent.conversation_id, None, None).unwrap();
    assert_eq!(original.len(), 2);
    assert_eq!(original[0].thread_id, sent.thread_id);
}

#[test]
fn new_message_to_a_group_creates_a_group_conversation() {
    let (mut db, acc) = setup();
    let people = vec![("a@x".to_string(), None), ("b@x".to_string(), Some("B".to_string()))];
    let conv = create_conversation_for_participants(&mut db, &people, &acc.email).unwrap();
    let again = create_conversation_for_participants(&mut db, &people, &acc.email).unwrap();
    assert_eq!(conv, again);
    assert_eq!(db.get_conversation_members(conv).unwrap().len(), 3);
    let one = create_conversation_for_participants(&mut db, &people[..1].to_vec(), &acc.email).unwrap();
    assert_ne!(one, conv);
    let convs_members = db.get_conversation_members(one).unwrap();
    assert_eq!(convs_members.len(), 2);
    let _ = ConversationKind::Direct;
}

#[test]
fn macos_account_list_is_split_into_name_and_address() {
    let out = b"  Work|me@work.example, Home|me@home.example, broken  \n";
    let accounts = parse_macos_accounts(out);
    assert_eq!(accounts.len(), 2);
    assert_eq!(accounts[0].name, "Work");
    assert_eq!(accounts[0].email, "me@work.example");
    assert_eq!(accounts[1].name, "Home");
    assert_eq!(accounts[1].email, "me@home.example");
    assert!(parse_macos_accounts(b"").is_empty());
}

#[test]
fn second_message_to_the_same_group_reuses_its_conversation() {
    let (mut db, acc) = setup();
    let bytes = raw("From: alice@example.com\r\nTo: me@example.com, bob@example.com\r\nSubject: Plan\r\nMessage-ID: <g1@x>", "hi");
    let parsed = parse_email_with(&bytes, "u", UtcTime::from_secs(10)).unwrap();
    let (conv, _) = resolve_conversation_and_thread_at(&mut db, &parsed, &acc.email, 10).unwrap();
    let bytes2 = raw("From: alice@example.com\r\nTo: me@example.com, bob@example.com\r\nSubject: Another plan\r\nMessage-ID: <g2@x>", "hi");
    let parsed2 = parse_email_with(&bytes2, "u", UtcTime::from_secs(11)).unwrap();
    let (conv2, _) = resolve_conversation_and_thread_at(&mut db, &parsed2, &acc.email, 11).unwrap();
    assert_eq!(conv2, conv);
    // A message to only one of them goes to the dialogue, not the group.
    let bytes3 = raw("From: bob@example.com\r\nTo: me@example.com\r\nSubject: Aside\r\nMessage-ID: <g3@x>", "hi");
    let parsed3 = parse_email_with(&bytes3, "u", UtcTime::from_secs(12)).unwrap();
    let (conv3, _) = resolve_conversation_and_thread_at(&mut db, &parsed3, &acc.email, 12).unwrap();
    assert_ne!(conv3, conv);
}

#[test]
fn writing_to_a_sender_uses_the_dialogue_of_their_message() {
    let (mut db, acc) = setup();
    let bytes = raw("From: Alice <alice@example.com>\r\nTo: me@example.com\r\nSubject: Hi\r\nMessage-ID: <w1@x>", "hi");
    let parsed = parse_email_with(&bytes, "u", UtcTime::from_secs(10)).unwrap();
    let (conv, _) = resolve_conversation_and_thread_at(&mut db, &parsed, &acc.email, 10).unwrap();
    let to_alice = vec![("alice@example.com".to_string(), None)];
    let sent = create_conversation_for_participants(&mut db, &to_alice, &acc.email).unwrap();
    assert_eq!(sent, conv);
}

#[test]
fn answer_from_recipients_joins_the_conversation_sent_to() {
    let (mut db, acc) = setup();
    let people = vec![("a@x".to_string(), None), ("b@x".to_string(), None)];
    let conv = create_conversation_for_participants(&mut db, &people, &acc.email).unwrap();
    let bytes = raw("From: a@x\r\nTo: me@example.com, b@x\r\nSubject: Re\r\nMessage-ID: <w2@x>", "ok");
    let parsed = parse_email_with(&bytes, "u", UtcTime::from_secs(10)).unwrap();
    let (placed, _) = resolve_conversation_and_thread_at(&mut db, &parsed, &acc.email, 10).unwrap();
    assert_eq!(placed, conv);
}

#[test]
fn placing_a_message_again_gives_the_same_place() {
    let (mut db, acc) = setup();
    let bytes = raw("From: alice@example.com\r\nTo: me@example.com, bob@example.com\r\nCc: carol@example.com\r\nSubject: Plan\r\nMessage-ID: <p1@x>", "hi");
    let parsed = parse_email_with(&bytes, "u", UtcTime::from_secs(10)).unwrap();
    let first = resolve_conversation_and_thread_at(&mut db, &parsed, &acc.email, 10).unwrap();
    let members = db.get_conversation_members(first.0).unwrap().len();
    let again = resolve_conversation_and_thread_at(&mut db, &parsed, &acc.email, 20).unwrap();
    assert_eq!(again, first);
    assert_eq!(db.get_conversation_members(first.0).unwrap().len(), members);
}

#[test]
fn subject_hint_is_set_and_updated() {
    let (mut db, acc) = setup();
    let m1 = raw("From: alice@example.com\r\nTo: me@example.com\r\nSubject: First\r\nMessage-ID: <h1@x>", "a");
    perform_sync_internal(&mut db, vec![(1, m1)], acc.id, &acc.email);
    let conv = db.list_conversations(acc.id).unwrap()[0].id;
    db.set_conversation_subject_hint(conv, "Second").unwrap();
    let convs = db.list_conversations(acc.id).unwrap();
    assert_eq!(convs[0].subject_hint.as_deref(), Some("Second"));
}

#[test]
fn stored_raw_headers_are_json_text() {
    let (mut db, acc) = setup();
    let m = raw("From: alice@example.com\r\nSubject: \"Q\"\r\nMessage-ID: <j@x>", "x");
    perform_sync_internal(&mut db, vec![(1, m)], acc.id, &acc.email);
    let conv = db.list_conversations(acc.id).unwrap()[0].id;
    let msgs = db.get_messages_for_conversation(conv, None, None).unwrap();
    assert_eq!(
        msgs[0].raw_headers.as_deref(),
        Some("\"From: alice@example.com\\r\\nSubject: \\\"Q\\\"\\r\\nMessage-ID: <j@x>\"")
    );
}

#[test]
fn outgoing_reply_gets_its_subject_and_references() {
    let (mut db, acc) = setup();
    let m1 = raw("From: alice@example.com\r\nTo: me@example.com\r\nSubject: Lunch\r\nMessage-ID: <1@x>", "Lunch?");
    perform_sync_internal(&mut db, vec![(1, m1)], acc.id, &acc.email);
    let payload = SendMessagePayload {
        to: vec![("alice@example.com".to_string(), None)],
        cc: Some(vec![("bob@example.com".to_string(), Some("Bob".to_string()))]),
        bcc: None,
        subject: None,
        body: "Sure".to_string(),
        in_reply_to_message_id: Some("<1@x>".to_string()),
    };
    let out = compose_outgoing(&db, &acc, &payload);
    assert_eq!(out.subject, "Re: Lunch");
    assert_eq!(out.references, vec!["<1@x>".to_string()]);
    assert_eq!(out.from_email, "me@example.com");
    assert_eq!(out.cc.len(), 1);
    assert!(out.bcc.is_empty());
    assert_eq!(out.in_reply_to.as_deref(), Some("<1@x>"));
}

#[test]
fn new_conversation_kind_follows_the_number_of_contacts() {
    let (mut db, acc) = setup();
    let two = vec![("a@x".to_string(), None), ("b@x".to_string(), None)];
    let group = create_conversation_for_participants(&mut db, &two, &acc.email).unwrap();
    let me = db.get_contact_by_email(&acc.email).unwrap().unwrap().id;
    let a = db.get_contact_by_email("a@x").unwrap().unwrap().id;
    let b = db.get_contact_by_email("b@x").unwrap().unwrap().id;
    assert_eq!(db.find_group_conversation(&[me, a, b]).unwrap(), Some(group));
    let one = vec![("a@x".to_string(), None)];
    let dialogue = create_conversation_for_participants(&mut db, &one, &acc.email).unwrap();
    assert_eq!(db.find_direct_conversation(me, a).unwrap(), Some(dialogue));
    assert_eq!(db.find_group_conversation(&[me, a]).unwrap(), None);
}
