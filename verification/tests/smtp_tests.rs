use meridian_mail::error::AppError;
use meridian_mail::models::Account;
use meridian_mail::smtp::mime_message::build_mailbox;
use meridian_mail::smtp::outgoing::{
    build_raw_message, build_raw_message_with, domain_from_email, message_id_with, new_message_id,
    OutgoingAttachment, OutgoingMessage, SmtpSender,
};

fn make_outgoing() -> OutgoingMessage {
    OutgoingMessage {
        from_email: "alice@example.com".to_string(),
        from_name: Some("Alice".to_string()),
        to: vec![("bob@example.com".to_string(), Some("Bob".to_string()))],
        cc: vec![],
        bcc: vec![],
        subject: "Hello Bob".to_string(),
        body_text: "Hey Bob, how are you?".to_string(),
        in_reply_to: None,
        references: vec![],
        attachments: vec![],
    }
}

fn account() -> Account {
    Account {
        id: 1,
        email: "alice@example.com".to_string(),
        display_name: Some("Alice".to_string()),
        imap_host: "imap.example.com".to_string(),
        imap_port: 993,
        smtp_host: "smtp.example.com".to_string(),
        smtp_port: 587,
        keychain_ref: "alice@example.com".to_string(),
    }
}

#[test]
fn test_build_raw_message_contains_headers() {
    let msg = make_outgoing();
    let raw = build_raw_message(&msg);
    assert!(raw.contains("From: Alice <alice@example.com>"));
    assert!(raw.contains("To: Bob <bob@example.com>"));
    assert!(raw.contains("Subject: Hello Bob"));
    assert!(raw.contains("Hey Bob, how are you?"));
}

#[test]
fn test_build_raw_message_reply_headers() {
    let mut msg = make_outgoing();
    msg.in_reply_to = Some("<parent@example.com>".to_string());
    msg.references = vec!["<parent@example.com>".to_string()];

    let raw = build_raw_message(&msg);
    assert!(raw.contains("In-Reply-To: <parent@example.com>"));
    assert!(raw.contains("References: <parent@example.com>"));
}

#[test]
fn test_domain_from_email() {
    assert_eq!(domain_from_email("user@example.com"), "example.com");
    assert_eq!(domain_from_email("noeatsign"), "localhost");
}

#[test]
fn test_build_mailbox_with_name() {
    let mb = build_mailbox("alice@example.com", Some("Alice Smith")).unwrap();
    assert_eq!(mb.email.to_string(), "alice@example.com");
}

#[test]
fn test_build_mailbox_without_name() {
    let mb = build_mailbox("alice@example.com", None).unwrap();
    assert_eq!(mb.email.to_string(), "alice@example.com");
}

#[test]
fn domain_stops_at_second_at_sign() {
    assert_eq!(domain_from_email("a@b@c"), "b");
    assert_eq!(domain_from_email("trailing@"), "");
}

#[test]
fn raw_message_has_exact_layout() {
    let mut msg = make_outgoing();
    msg.cc = vec![("carol@example.com".to_string(), None), ("dan@example.com".to_string(), Some("Dan".to_string()))];
    msg.references = vec!["<r1@x>".to_string(), "<r2@x>".to_string()];
    let raw = build_raw_message_with(&msg, "Mon, 01 Jan 2024 10:00:00 +0000", "U-U-I-D");
    assert_eq!(
        raw,
        "From: Alice <alice@example.com>\r\nTo: Bob <bob@example.com>\r\nSubject: Hello Bob\r\nDate: Mon, 01 Jan 2024 10:00:00 +0000\r\nMessage-ID: <U-U-I-D@example.com>\r\nContent-Type: text/plain; charset=utf-8\r\nMIME-Version: 1.0\r\nReferences: <r1@x> <r2@x>\r\nCc: carol@example.com, Dan <dan@example.com>\r\n\r\nHey Bob, how are you?"
    );
}

#[test]
fn message_ids_use_the_sender_domain() {
    assert_eq!(message_id_with("abc", "me@mail.example"), "<abc@mail.example>");
    let id = new_message_id("me@mail.example");
    assert!(id.starts_with('<'));
    assert!(id.ends_with("@mail.example>"));
    assert_eq!(id.len(), 1 + 36 + 1 + "mail.example".len() + 1);
}

#[test]
fn invalid_mailbox_is_an_smtp_error_naming_the_address() {
    match build_mailbox("not an address", None) {
        Err(AppError::Smtp(m)) => assert!(m.starts_with("invalid email 'not an address': ")),
        _ => panic!("expected an SMTP error"),
    }
    match build_mailbox("nope", Some("Name")) {
        Err(AppError::Smtp(m)) => assert!(m.starts_with("invalid mailbox 'nope': ")),
        _ => panic!("expected an SMTP error"),
    }
}

#[test]
fn build_message_formats_headers_and_body() {
    let sender = SmtpSender::new(account());
    let mut msg = make_outgoing();
    msg.in_reply_to = Some("<parent@example.com>".to_string());
    let built = sender.build_message(&msg).unwrap();
    let text = String::from_utf8_lossy(built.formatted()).to_string();
    assert!(text.contains("Subject: Hello Bob"));
    assert!(text.contains("In-Reply-To: <parent@example.com>"));
    assert!(text.contains("Hey Bob, how are you?"));
    assert!(text.contains("@example.com>"));
}

#[test]
fn build_message_with_attachment_is_multipart() {
    let sender = SmtpSender::new(account());
    let mut msg = make_outgoing();
    msg.attachments = vec![OutgoingAttachment {
        filename: "a.bin".to_string(),
        mime_type: "not a type".to_string(),
        data: vec![1, 2, 3],
    }];
    let built = sender.build_message(&msg).unwrap();
    let text = String::from_utf8_lossy(built.formatted()).to_string();
    assert!(text.contains("multipart/mixed"));
    assert!(text.contains("application/octet-stream"));
}

#[test]
fn build_message_reports_first_bad_recipient() {
    let sender = SmtpSender::new(account());
    let mut msg = make_outgoing();
    msg.cc = vec![("bad address".to_string(), None)];
    match sender.build_message(&msg) {
        Err(AppError::Smtp(m)) => assert!(m.starts_with("invalid email 'bad address'")),
        _ => panic!("expected an SMTP error"),
    }
}

#[test]
fn build_message_without_recipients_is_refused() {
    let sender = SmtpSender::new(account());
    let mut msg = make_outgoing();
    msg.to = vec![];
    assert!(matches!(sender.build_message(&msg), Err(AppError::Smtp(_))));
}

#[test]
fn built_message_carries_the_headers_it_was_given() {
    let sender = SmtpSender::new(account());
    let mut msg = make_outgoing();
    msg.cc = vec![("carol@example.com".to_string(), None)];
    msg.in_reply_to = Some("<orig@example.com>".to_string());
    msg.references = vec!["<a@x>".to_string(), "<orig@example.com>".to_string()];
    let mail = sender.build_message_with(&msg, "fixed-uuid").unwrap();
    assert_eq!(mail.headers().from, "Alice <alice@example.com>");
    assert_eq!(mail.headers().to, vec!["Bob <bob@example.com>".to_string()]);
    assert_eq!(mail.headers().cc, vec!["carol@example.com".to_string()]);
    assert!(mail.headers().bcc.is_empty());
    assert_eq!(mail.headers().subject, "Hello Bob");
    assert_eq!(mail.headers().in_reply_to.as_deref(), Some("<orig@example.com>"));
    assert_eq!(mail.headers().references.as_deref(), Some("<a@x> <orig@example.com>"));
    assert_eq!(mail.headers().message_id, "<fixed-uuid@example.com>");
    let text = String::from_utf8_lossy(mail.formatted()).to_string();
    assert!(text.contains("Message-ID: <fixed-uuid@example.com>"));
    assert!(text.contains("Subject: Hello Bob"));
}

#[test]
fn message_without_recipients_is_refused() {
    let sender = SmtpSender::new(account());
    let mut msg = make_outgoing();
    msg.to = vec![];
    assert!(matches!(sender.build_message_with(&msg, "u"), Err(AppError::Smtp(_))));
}

#[test]
fn sent_copy_has_the_sent_message_id() {
    let sender = SmtpSender::new(account());
    let (mail, copy) = sender.build_message_and_copy(&make_outgoing()).unwrap();
    assert!(copy.contains(&format!("Message-ID: {}", mail.headers().message_id)));
}

#[test]
fn built_message_carries_its_body_and_attachments() {
    let sender = SmtpSender::new(account());
    let mut msg = make_outgoing();
    let plain = sender.build_message_with(&msg, "u1").unwrap();
    assert!(!plain.body().multipart);
    assert_eq!(plain.body().text, "Hey Bob, how are you?");
    assert!(plain.body().attachments.is_empty());
    msg.attachments = vec![
        OutgoingAttachment { filename: "a.txt".to_string(), mime_type: "text/plain".to_string(), data: b"hi".to_vec() },
        OutgoingAttachment { filename: "b.bin".to_string(), mime_type: "not a type".to_string(), data: vec![1, 2] },
    ];
    let mixed = sender.build_message_with(&msg, "u2").unwrap();
    let body = mixed.body();
    assert!(body.multipart);
    assert_eq!(body.text, "Hey Bob, how are you?");
    assert_eq!(body.attachments.len(), 2);
    assert_eq!(body.attachments[0].content_type, "text/plain");
    assert_eq!(body.attachments[1].filename, "b.bin");
    assert_eq!(body.attachments[1].content_type, "application/octet-stream");
    assert_eq!(body.attachments[1].data, vec![1, 2]);
    let text = String::from_utf8_lossy(mixed.formatted()).to_string();
    assert!(text.contains("multipart/mixed"));
}
