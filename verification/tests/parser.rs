use mailcore::addr::{parse_address_list, render_address_list};
use mailcore::decode::{b64_decode, qp_decode};
use mailcore::message::parse_message;
use mailcore::model::{Address, MailError};
use mailcore::project::{project, JsonValue};

fn pairs(list: &[Address]) -> Vec<(Option<Vec<u8>>, Vec<u8>)> {
    let mut out = Vec::new();
    for a in list {
        match a {
            Address::Mailbox { name, address } => out.push((name.clone(), address.clone())),
            Address::Group { name: _, members } => out.extend(pairs(members)),
        }
    }
    out.sort();
    out
}

#[test]
fn address_round_trip_preserves_pairs() {
    let raw = b"Alice Ann <alice@example.com>, bob@example.org, \"C, Dee\" <cd@example.net>";
    let parsed = parse_address_list(raw);
    let rendered = render_address_list(&parsed);
    let reparsed = parse_address_list(rendered.as_slice());
    assert_eq!(pairs(&parsed), pairs(&reparsed));
    assert_eq!(pairs(&parsed).len(), 3);
}

#[test]
fn group_round_trip_preserves_pairs() {
    let raw = b"undisclosed: a@x.org, b@y.org;, solo@z.org";
    let parsed = parse_address_list(raw);
    let rendered = render_address_list(&parsed);
    let reparsed = parse_address_list(rendered.as_slice());
    assert_eq!(pairs(&parsed), pairs(&reparsed));
    assert_eq!(pairs(&parsed).len(), 3);
}

#[test]
fn address_display_names() {
    let parsed = parse_address_list(b"Alice <a@x.com>");
    match &parsed[0] {
        Address::Mailbox { name, address } => {
            assert_eq!(name.as_deref(), Some(b"Alice".as_slice()));
            assert_eq!(address, b"a@x.com");
        }
        _ => panic!("expected mailbox"),
    }
}

fn simple_multipart() -> Vec<u8> {
    let mut m = Vec::new();
    m.extend_from_slice(b"From: a@x.com\r\n");
    m.extend_from_slice(b"Date: Thu, 5 Jun 2025 10:20:30 +0200\r\n");
    m.extend_from_slice(b"Content-Type: multipart/mixed; boundary=\"sep\"\r\n");
    m.extend_from_slice(b"\r\n");
    m.extend_from_slice(b"--sep\r\nContent-Type: text/plain\r\n\r\nfirst\r\n");
    m.extend_from_slice(b"--sep\r\nContent-Type: text/html\r\n\r\n<p>hi</p>\r\n");
    m.extend_from_slice(b"--sep\r\nContent-Type: text/plain\r\n\r\nsecond\r\n");
    m.extend_from_slice(b"--sep--\r\n");
    m
}

#[test]
fn multipart_counts() {
    let m = parse_message(&simple_multipart());
    assert_eq!(m.text_body_count(), 2);
    assert_eq!(m.html_body_count(), 1);
    assert_eq!(m.attachment_count(), 0);
}

#[test]
fn body_text_by_index_in_preorder() {
    let m = parse_message(&simple_multipart());
    let t0 = m.body_text(0).expect("first text leaf");
    let t1 = m.body_text(1).expect("second text leaf");
    assert_eq!(t0, b"first\r\n".to_vec());
    assert_eq!(t1, b"second\r\n".to_vec());
    assert!(m.body_text(2).is_none());
    let h0 = m.body_html(0).expect("html leaf");
    assert_eq!(h0, b"<p>hi</p>\r\n".to_vec());
    assert!(m.body_html(1).is_none());
}

#[test]
fn folded_header_parses_like_unfolded() {
    let folded = parse_message(b"Subject: Hello\r\n World\r\n\r\nbody");
    let plain = parse_message(b"Subject: Hello World\r\n\r\nbody");
    assert_eq!(folded.subject(), plain.subject());
    assert_eq!(folded.subject().unwrap(), b"Hello World".to_vec());
}

#[test]
fn encoded_word_subject_decodes() {
    let m = parse_message(b"Subject: =?UTF-8?B?SGVsbG8=?=\r\n\r\nbody");
    assert_eq!(m.subject().unwrap(), b"Hello".to_vec());
}

#[test]
fn encoded_word_q_and_adjacent_words() {
    let m = parse_message(b"Subject: =?utf-8?Q?a_b?= =?utf-8?Q?c?=\r\n\r\n");
    assert_eq!(m.subject().unwrap(), b"a bc".to_vec());
}

#[test]
fn latin1_encoded_word_is_transcoded() {
    // 0xE9 is e-acute in ISO 8859-1; expect UTF-8 C3 A9.
    let m = parse_message(b"Subject: =?iso-8859-1?Q?caf=E9?=\r\n\r\n");
    assert_eq!(m.subject().unwrap(), vec![99, 97, 102, 0xC3, 0xA9]);
}

#[test]
fn missing_separator_still_yields_headers() {
    let m = parse_message(b"From: a@x.com\r\nSubject: hi");
    assert!(!m.headers.is_empty());
    assert!(m.issues().contains(&MailError::MalformedMessage));
    let (text, _) = m.get_body();
    assert_eq!(text, "No text body found");
}

#[test]
fn deep_multipart_nesting_is_capped() {
    let mut msg: Vec<u8> = Vec::new();
    msg.extend_from_slice(b"From: a@x.com\r\n");
    for i in 0..101 {
        msg.extend_from_slice(
            format!("Content-Type: multipart/mixed; boundary=\"b{}\"\r\n\r\n--b{}\r\n", i, i)
                .as_bytes(),
        );
    }
    msg.extend_from_slice(b"Content-Type: text/plain\r\n\r\ndeep");
    let m = parse_message(&msg);
    assert!(m.issues().contains(&MailError::MimeDepthExceeded));
}

#[test]
fn shallow_nesting_is_not_capped() {
    let m = parse_message(&simple_multipart());
    assert!(!m.issues().contains(&MailError::MimeDepthExceeded));
}

#[test]
fn missing_date_fails_projection_not_body() {
    let m = parse_message(b"From: a@x.com\r\nSubject: hi\r\n\r\nhello");
    let (text, html) = m.get_body();
    assert_eq!(text, "hello");
    assert_eq!(html, "No HTML body found");
    match project(&m) {
        Err(e) => assert_eq!(e, MailError::MissingRequiredField),
        Ok(_) => panic!("projection must fail without a Date header"),
    }
}

#[test]
fn projection_with_date_succeeds() {
    let m = parse_message(&simple_multipart());
    let out = project(&m).expect("projection");
    let keys: Vec<Vec<u8>> = out.iter().map(|(k, _)| k.clone()).collect();
    assert!(keys.contains(&b"from".to_vec()));
    assert!(keys.contains(&b"date".to_vec()));
    assert!(keys.contains(&b"text_body_count".to_vec()));
    assert!(!keys.contains(&b"subject".to_vec()));
    let date = out.iter().find(|(k, _)| k == b"date").unwrap();
    match &date.1 {
        JsonValue::JString(s) => assert_eq!(s, b"2025-06-05T10:20:30+02:00"),
        _ => panic!("date must be a string"),
    }
    let tc = out.iter().find(|(k, _)| k == b"text_body_count").unwrap();
    match &tc.1 {
        JsonValue::JNumber(n) => assert_eq!(*n, 2),
        _ => panic!("count must be a number"),
    }
}

#[test]
fn date_parses_exactly() {
    let m = parse_message(b"Date: Thu, 5 Jun 2025 10:20:30 -0430\r\n\r\n");
    let d = m.date().expect("date");
    assert_eq!(
        (d.year, d.month, d.day, d.hour, d.minute, d.second, d.tz_negative, d.tz_minutes),
        (2025, 6, 5, 10, 20, 30, true, 270)
    );
}

#[test]
fn date_named_zone_and_two_digit_year() {
    let m = parse_message(b"Date: 5 Jun 99 10:20 PST\r\n\r\n");
    let d = m.date().expect("date");
    assert_eq!((d.year, d.second, d.tz_negative, d.tz_minutes), (1999, 0, true, 480));
}

#[test]
fn bad_date_is_absent() {
    let m = parse_message(b"Date: not a date\r\n\r\n");
    assert!(m.date().is_none());
}

#[test]
fn quoted_printable_body_decodes() {
    let m = parse_message(
        b"Content-Type: text/plain\r\nContent-Transfer-Encoding: quoted-printable\r\n\r\nCaf=C3=A9=\r\n!",
    );
    assert_eq!(m.body_text(0).unwrap(), vec![67, 97, 102, 0xC3, 0xA9, 33]);
}

#[test]
fn base64_body_decodes() {
    let m = parse_message(
        b"Content-Type: text/plain\r\nContent-Transfer-Encoding: base64\r\n\r\nSGVsbG8h\r\n",
    );
    assert_eq!(m.body_text(0).unwrap(), b"Hello!".to_vec());
}

#[test]
fn b64_and_qp_primitives() {
    assert_eq!(b64_decode(b"TWFu"), b"Man".to_vec());
    assert_eq!(b64_decode(b"TWE="), b"Ma".to_vec());
    assert_eq!(b64_decode(b"TQ=="), b"M".to_vec());
    assert_eq!(qp_decode(b"a=20b", false), b"a b".to_vec());
    assert_eq!(qp_decode(b"a_b", true), b"a b".to_vec());
    assert_eq!(qp_decode(b"a_b", false), b"a_b".to_vec());
}

#[test]
fn attachment_is_counted_not_decoded() {
    let mut m = Vec::new();
    m.extend_from_slice(b"Content-Type: multipart/mixed; boundary=x\r\n\r\n");
    m.extend_from_slice(b"--x\r\nContent-Type: text/plain\r\n\r\nhi\r\n");
    m.extend_from_slice(
        b"--x\r\nContent-Type: application/pdf; name=\"doc.pdf\"\r\nContent-Disposition: attachment; filename=\"doc.pdf\"\r\n\r\nBINARY\r\n",
    );
    m.extend_from_slice(b"--x--\r\n");
    let msg = parse_message(&m);
    assert_eq!(msg.attachment_count(), 1);
    assert_eq!(msg.text_body_count(), 1);
}

#[test]
fn thread_name_strips_prefixes() {
    let m = parse_message(b"Subject: Re: FWD: re: Budget\r\n\r\n");
    assert_eq!(m.thread_name().unwrap(), b"Budget".to_vec());
}

#[test]
fn return_address_falls_back() {
    let m1 = parse_message(b"Reply-To: r@x.com\r\nFrom: f@x.com\r\nSender: s@x.com\r\n\r\n");
    assert_eq!(m1.return_address().unwrap(), b"r@x.com".to_vec());
    let m2 = parse_message(b"From: f@x.com\r\nSender: s@x.com\r\n\r\n");
    assert_eq!(m2.return_address().unwrap(), b"f@x.com".to_vec());
    let m3 = parse_message(b"Sender: s@x.com\r\n\r\n");
    assert_eq!(m3.return_address().unwrap(), b"s@x.com".to_vec());
    let m4 = parse_message(b"Subject: none\r\n\r\n");
    assert!(m4.return_address().is_none());
}

#[test]
fn message_id_and_references() {
    let m = parse_message(b"Message-ID: <abc@x>\r\nReferences: <r1@x> <r2@x>\r\n\r\n");
    assert_eq!(m.message_id().unwrap(), b"abc@x".to_vec());
}

#[test]
fn to_aggregates_all_occurrences() {
    let m = parse_message(b"To: a@x.com\r\nTo: b@x.com\r\n\r\n");
    let to = m.address_field(b"to");
    assert_eq!(pairs(&to).len(), 2);
}

#[test]
fn empty_header_value_is_omitted_from_projection() {
    let m = parse_message(b"Date: 5 Jun 2025 10:20:30 +0000\r\nKeywords:\r\n\r\n");
    let out = project(&m).expect("projection");
    assert!(!out.iter().any(|(k, _)| k == b"keywords"));
}

#[test]
fn lossy_utf8_replaces_invalid_bytes() {
    let mut raw = b"Content-Type: text/plain\r\n\r\nok ".to_vec();
    raw.push(0xFF);
    let m = parse_message(&raw);
    let (text, _) = m.get_body();
    assert_eq!(text, "ok \u{FFFD}");
}

#[test]
fn lf_only_line_endings_accepted() {
    let m = parse_message(b"Subject: hi\nFrom: a@x.com\n\nbody");
    assert_eq!(m.subject().unwrap(), b"hi".to_vec());
    let (text, _) = m.get_body();
    assert_eq!(text, "body");
}

#[test]
fn empty_message_parses() {
    let m = parse_message(b"");
    assert_eq!(m.headers.len(), 0);
    assert_eq!(m.text_body_count(), 1);
    let (text, _) = m.get_body();
    assert_eq!(text, "No text body found");
}
