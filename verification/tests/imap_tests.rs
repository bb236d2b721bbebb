use meridian_mail::stamp::UtcTime;
use meridian_mail::imap::body::{strip_at, strip_quotes_and_signature};
use meridian_mail::imap::delete::{bare_id, scan_pick, uid_set_string, DeleteAction, DeleteBatch};
use meridian_mail::imap::fetch::{recent_fetch_set, since_uid_set};
use meridian_mail::imap::headers::{extract_raw_headers, find_subsequence};
use meridian_mail::imap::mime::{MailAddr, MailAddress, MailGroup};
use meridian_mail::imap::parse::{
    bracket_id, extract_addr_list_opt, extract_attachments, extract_first_addr_opt, parse_email,
    parse_email_with,
};

#[test]
fn test_strip_quotes_gmail_style() {
    let body = "Hey, how are you?\n\nOn Mon, 1 Jan 2024, Alice wrote:\n> I'm fine\n> thanks";
    let result = strip_quotes_and_signature(body);
    assert_eq!(result.trim(), "Hey, how are you?");
}

#[test]
fn test_strip_signature() {
    let body = "See you tomorrow!\n\n-- \nBob\nbob@example.com";
    let result = strip_quotes_and_signature(body);
    assert_eq!(result.trim(), "See you tomorrow!");
}

#[test]
fn test_strip_inline_quotes() {
    let body = "OK sounds good.\n> Original message\n> blah blah";
    let result = strip_quotes_and_signature(body);
    assert_eq!(result.trim(), "OK sounds good.");
}

#[test]
fn test_no_strip_when_clean() {
    let body = "Just a plain message with no quotes.";
    let result = strip_quotes_and_signature(body);
    assert_eq!(result, body);
}

#[test]
fn test_parse_minimal_email() {
    let raw = b"From: alice@example.com\r\nTo: bob@example.com\r\nSubject: Hello\r\nMessage-ID: <test@example.com>\r\n\r\nHello Bob!";
    let parsed = parse_email(raw).unwrap();
    assert_eq!(parsed.from_email, "alice@example.com");
    assert_eq!(parsed.subject.as_deref(), Some("Hello"));
    assert!(parsed.body_text.as_deref().unwrap_or("").contains("Hello Bob"));
}

#[test]
fn strip_cuts_at_separator_line_and_keeps_earlier_text() {
    let body = "Line one\n  > quoted with indent\nLine two\n________\nfooter";
    assert_eq!(strip_quotes_and_signature(body), "Line one\nLine two");
}

#[test]
fn strip_cuts_at_three_dash_separator() {
    assert_eq!(strip_quotes_and_signature("Thanks\n---\nSent from my phone"), "Thanks");
    assert_eq!(strip_quotes_and_signature("Thanks\n___\nfooter"), "Thanks");
}

#[test]
fn strip_cuts_at_forwarded_message_rule() {
    let body = "FYI\n---------- Forwarded message ----------\nFrom: someone";
    assert_eq!(strip_quotes_and_signature(body), "FYI");
}

#[test]
fn strip_at_given_offset_drops_quoted_lines_and_trailing_space() {
    assert_eq!(strip_at("keep\n> drop\nalso  \n\nrest", Some(20)), "keep\nalso");
    assert_eq!(strip_at("a\r\nb  ", None), "a\nb");
    assert_eq!(strip_at("héllo wörld", Some(3)), "hé");
}

#[test]
fn find_subsequence_reports_first_position() {
    assert_eq!(find_subsequence(b"abcabc", b"bc"), Some(1));
    assert_eq!(find_subsequence(b"abc", b"abcd"), None);
    assert_eq!(find_subsequence(b"aaa", b"x"), None);
    assert_eq!(find_subsequence(b"x\r\n\r\ny", b"\r\n\r\n"), Some(1));
}

#[test]
fn raw_headers_end_at_first_blank_line() {
    assert_eq!(extract_raw_headers(b"A: 1\r\nB: 2\r\n\r\nbody"), "A: 1\r\nB: 2");
    assert_eq!(extract_raw_headers(b"A: 1\nB: 2\n\nbody\n\nmore"), "A: 1\nB: 2");
    assert_eq!(extract_raw_headers(b"A: 1"), "A: 1");
    assert_eq!(extract_raw_headers(b"A: \xff\n\n"), "A: \u{fffd}");
    assert_eq!(extract_raw_headers(b"A: 1\n\nx\r\n\r\ny"), "A: 1");
}

#[test]
fn newsletter_needs_a_list_unsubscribe_field() {
    let with_field = b"From: news@shop.example\r\nlist-UNSUBSCRIBE: <mailto:x@y>\r\nMessage-ID: <n@x>\r\n\r\nhi";
    assert!(parse_email(with_field).unwrap().is_newsletter);
    let in_subject = b"From: a@x\r\nSubject: how to list-unsubscribe\r\nMessage-ID: <s@x>\r\n\r\nhi";
    assert!(!parse_email(in_subject).unwrap().is_newsletter);
}

#[test]
fn message_ids_get_angle_brackets_once() {
    assert_eq!(bracket_id("abc@x"), "<abc@x>");
    assert_eq!(bracket_id("<abc@x>"), "<abc@x>");
    assert_eq!(bracket_id(""), "<>");
}

fn addr(name: Option<&str>, address: Option<&str>) -> MailAddr {
    MailAddr { name: name.map(|s| s.to_string()), address: address.map(|s| s.to_string()) }
}

#[test]
fn first_address_of_list_and_groups() {
    let list = Some(MailAddress::List(vec![addr(Some("A"), Some("a@x")), addr(None, Some("b@x"))]));
    assert_eq!(extract_first_addr_opt(&list), ("a@x".to_string(), Some("A".to_string())));
    let groups = Some(MailAddress::Group(vec![
        MailGroup { name: Some("empty".to_string()), addresses: vec![] },
        MailGroup { name: None, addresses: vec![addr(Some("C"), None)] },
    ]));
    assert_eq!(extract_first_addr_opt(&groups), ("unknown@unknown".to_string(), Some("C".to_string())));
    assert_eq!(extract_first_addr_opt(&None), ("unknown@unknown".to_string(), None));
    assert_eq!(extract_first_addr_opt(&Some(MailAddress::List(vec![]))), ("unknown@unknown".to_string(), None));
}

#[test]
fn address_list_skips_entries_without_address() {
    let groups = Some(MailAddress::Group(vec![
        MailGroup { name: None, addresses: vec![addr(Some("A"), Some("a@x")), addr(Some("N"), None)] },
        MailGroup { name: None, addresses: vec![addr(None, Some("b@x"))] },
    ]));
    assert_eq!(
        extract_addr_list_opt(&groups),
        vec![("a@x".to_string(), Some("A".to_string())), ("b@x".to_string(), None)]
    );
    assert!(extract_addr_list_opt(&None).is_empty());
}

#[test]
fn parse_with_fallbacks_for_missing_id_and_date() {
    let raw = b"From: \"Alice\" <alice@example.com>\r\nTo: bob@example.com, carol@example.com\r\nCc: dave@example.com\r\nSubject: Hi\r\nIn-Reply-To: <parent@example.com>\r\nList-Unsubscribe: <mailto:u@x>\r\n\r\nBody";
    let parsed = parse_email_with(raw, "fixed-uuid", UtcTime::from_secs(1234)).unwrap();
    assert_eq!(parsed.message_id, "<generated-fixed-uuid>");
    assert_eq!(parsed.sent_at, UtcTime::from_secs(1234));
    assert_eq!(parsed.from_email, "alice@example.com");
    assert_eq!(parsed.from_name.as_deref(), Some("Alice"));
    assert_eq!(parsed.to.len(), 2);
    assert_eq!(parsed.cc, vec![("dave@example.com".to_string(), None)]);
    assert_eq!(parsed.in_reply_to.as_deref(), Some("<parent@example.com>"));
    assert!(parsed.is_newsletter);
    assert!(parsed.raw_headers.starts_with("From: "));
}

#[test]
fn parse_reads_date_and_references() {
    let raw = b"From: a@x\r\nDate: Thu, 01 Jan 1970 00:01:40 +0000\r\nMessage-ID: <m1@x>\r\nReferences: <r1@x> <r2@x>\r\n\r\ntext";
    let parsed = parse_email_with(raw, "unused", UtcTime::from_secs(0)).unwrap();
    assert_eq!(parsed.sent_at, UtcTime::from_secs(100));
    assert_eq!(parsed.message_id, "<m1@x>");
    assert_eq!(parsed.references, vec!["<r1@x>".to_string(), "<r2@x>".to_string()]);
    assert!(!parsed.is_newsletter);
}

#[test]
fn attachments_are_read_with_their_types() {
    let raw = b"From: a@x\r\nMIME-Version: 1.0\r\nContent-Type: multipart/mixed; boundary=\"XX\"\r\n\r\n--XX\r\nContent-Type: text/plain\r\n\r\nhello\r\n--XX\r\nContent-Type: application/pdf\r\nContent-Disposition: attachment; filename=\"doc.pdf\"\r\nContent-Transfer-Encoding: base64\r\n\r\nAAEC\r\n--XX--\r\n";
    let atts = extract_attachments(raw);
    assert_eq!(atts.len(), 1);
    assert_eq!(atts[0].filename.as_deref(), Some("doc.pdf"));
    assert_eq!(atts[0].mime_type, "application/pdf");
    assert_eq!(atts[0].data, vec![0u8, 1, 2]);
    assert_eq!(atts[0].size_bytes, 3);
}

#[test]
fn message_ids_lose_their_angle_brackets() {
    assert_eq!(bare_id("<abc@x>").into_iter().collect::<String>(), "abc@x");
    assert_eq!(bare_id("<<abc>>").into_iter().collect::<String>(), "abc");
    assert_eq!(bare_id("<>").into_iter().collect::<String>(), "");
}

#[test]
fn uid_sets_are_comma_separated() {
    assert_eq!(uid_set_string(&vec![3, 17, 250]), "3,17,250");
    assert_eq!(uid_set_string(&vec![]), "");
}

#[test]
fn fetch_sets_cover_the_latest_messages() {
    assert_eq!(recent_fetch_set(0, 50), None);
    assert_eq!(recent_fetch_set(120, 50), Some("71:120".to_string()));
    assert_eq!(recent_fetch_set(10, 50), Some("1:10".to_string()));
    assert_eq!(recent_fetch_set(5, 0), None);
    assert_eq!(since_uid_set(42), "42:*");
}

#[test]
fn scan_picks_first_matching_header_with_uid() {
    let items = vec![
        (Some(1u32), Some(b"Message-ID: <other@x>".to_vec())),
        (None, Some(b"Message-ID: <abc@x>".to_vec())),
        (Some(7u32), None),
        (Some(9u32), Some(b"Message-ID: <abc@x>".to_vec())),
    ];
    let text: Vec<char> = "abc@x".chars().collect();
    assert_eq!(scan_pick(&items, &text), Some(9));
    let none: Vec<char> = "zzz".chars().collect();
    assert_eq!(scan_pick(&items, &none), None);
}

#[test]
fn delete_batch_searches_exact_then_bare_then_scans() {
    let mut batch = DeleteBatch::new(vec!["<a@x>".to_string(), "<b@x>".to_string()]);
    match batch.action() {
        DeleteAction::Search(q) => assert_eq!(q, "HEADER Message-ID \"<a@x>\""),
        other => panic!("unexpected {other:?}"),
    }
    batch.record(vec![5, 6]);
    match batch.action() {
        DeleteAction::Search(q) => assert_eq!(q, "HEADER Message-ID \"<b@x>\""),
        other => panic!("unexpected {other:?}"),
    }
    batch.record(vec![]);
    match batch.action() {
        DeleteAction::Search(q) => assert_eq!(q, "HEADER Message-ID \"b@x\""),
        other => panic!("unexpected {other:?}"),
    }
    batch.record(vec![]);
    match batch.action() {
        DeleteAction::Scan(t) => assert_eq!(t.into_iter().collect::<String>(), "b@x"),
        other => panic!("unexpected {other:?}"),
    }
    batch.record(vec![6]);
    match batch.action() {
        DeleteAction::Store(set) => assert_eq!(set, "5,6"),
        other => panic!("unexpected {other:?}"),
    }
}

#[test]
fn delete_batch_with_nothing_found_is_done() {
    let mut batch = DeleteBatch::new(vec!["<a@x>".to_string()]);
    batch.record(vec![]);
    batch.record(vec![]);
    batch.record(vec![]);
    assert!(matches!(batch.action(), DeleteAction::Done));
    let empty = DeleteBatch::new(vec![]);
    assert!(matches!(empty.action(), DeleteAction::Done));
}
