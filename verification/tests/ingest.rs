use petrel::message::{AddressLine, ParsedAttachment, ParsedMessage};
use petrel::store::ingest::{
    dedupe_key, files_into, ingested, new_row, record, restored_text, NewMessage, Row,
};
use petrel::store::listing::wire_msgid;

fn message() -> ParsedMessage {
    ParsedMessage {
        message_id: Some("a@example.com".into()),
        references: vec![],
        from_display: Some("Ann".into()),
        from_addr: Some("ann@example.com".into()),
        to: vec![],
        cc: vec![],
        subject: Some("Re: Lunch".into()),
        list_id: None,
        date_ms: Some(7),
        index_text: "one\n  two".into(),
        headers: vec![],
        attachments: vec![
            ParsedAttachment {
                filename: Some("a.pdf".into()),
                content_type: "application/pdf".into(),
                size: 3,
            },
            ParsedAttachment {
                filename: None,
                content_type: "text/plain".into(),
                size: 4,
            },
            ParsedAttachment {
                filename: Some("b.png".into()),
                content_type: "image/png".into(),
                size: 5,
            },
        ],
        addresses: vec![
            AddressLine {
                role: "from".into(),
                addr: "ann@example.com".into(),
                name: Some("Ann".into()),
            },
            AddressLine {
                role: "to".into(),
                addr: "bo@example.com".into(),
                name: None,
            },
        ],
    }
}

#[test]
fn a_key_is_the_message_id_or_the_hash() {
    assert_eq!(dedupe_key(Some("a@b"), "ff", None), "a@b");
    assert_eq!(dedupe_key(None, "ff", None), "blake3:ff");
    assert_eq!(dedupe_key(Some("a@b"), "ff", Some(12)), "a@b::copy-12");
    assert_eq!(dedupe_key(None, "ff", Some(0)), "blake3:ff::copy-0");
}

#[test]
fn a_key_gives_its_message_id_back() {
    for copy in [None, Some(7)] {
        let key = dedupe_key(Some("a@b"), "ff", copy);
        assert_eq!(wire_msgid(Some(&key)).as_deref(), Some("a@b"));
        let key = dedupe_key(None, "ff", copy);
        assert_eq!(wire_msgid(Some(&key)), None);
    }
    assert_eq!(wire_msgid(None), None);
    assert_eq!(wire_msgid(Some("")), None);
    assert_eq!(wire_msgid(Some("::copy-3")), None);
    // A name that runs into the mark is still the whole name.
    let key = dedupe_key(Some("a::copy"), "ff", Some(1));
    assert_eq!(wire_msgid(Some(&key)).as_deref(), Some("a::copy"));
}

#[test]
fn a_record_is_one_reading_of_a_message() {
    let r = record(&message(), "ff", None);
    assert_eq!(r.key, "a@example.com");
    assert_eq!(r.date_ms, 7);
    assert_eq!(r.subject_text, "Re: Lunch");
    assert_eq!(r.subject_norm, "Lunch");
    assert_eq!(r.snippet, "one two");
    assert_eq!(r.addrs_text, "Ann ann@example.com bo@example.com");
    assert_eq!(r.attachment_names, "a.pdf b.png");
    assert!(r.has_attachments);
    assert_eq!(r.attachments.len(), 3);
    assert_eq!(r.attachments[2].part_id, 2);
    assert_eq!(r.attachments[2].filename.as_deref(), Some("b.png"));
    assert_eq!(r.attachments[1].filename, None);
    assert_eq!(r.attachments[0].mime, "application/pdf");
    assert_eq!(r.attachments[0].size, 3);
}

#[test]
fn a_message_with_nothing_in_it_is_still_recorded() {
    let mut m = message();
    m.message_id = None;
    m.subject = None;
    m.date_ms = None;
    m.attachments.clear();
    let r = record(&m, "ff", Some(3));
    assert_eq!(r.key, "blake3:ff::copy-3");
    assert_eq!(r.date_ms, 0);
    assert_eq!(r.subject_text, "");
    assert_eq!(r.subject_norm, "");
    assert_eq!(r.attachment_names, "");
    assert!(!r.has_attachments);
}

#[test]
fn a_restored_message_is_indexed_by_bare_addresses() {
    let r = restored_text(&message());
    assert_eq!(r.subject, "Re: Lunch");
    assert_eq!(r.addrs, "ann@example.com bo@example.com");
    assert_eq!(r.attachment_names, "a.pdf b.png");
}

#[test]
fn what_waits_to_be_sent_is_not_filed_over() {
    assert_eq!(files_into(Some(4), false), Some(4));
    assert_eq!(files_into(Some(4), true), None);
    assert_eq!(files_into(None, false), None);
}

#[test]
fn a_second_delivery_is_no_new_message() {
    assert!(ingested(5, "ff", Row::of(None)).was_new);
    let again = ingested(5, "ff", Row::of(Some(5)));
    assert!(!again.was_new);
    assert_eq!(again.message_id, 5);
    assert_eq!(again.blob_hash, "ff");
}

#[test]
fn a_row_without_bytes_has_its_addresses_in_lower_case() {
    let r = new_row(&NewMessage {
        account_id: 1,
        date_ms: 0,
        from_addr: "Ann@Example.com".into(),
        from_display: "Ann".into(),
        to_addr: "BO@example.com".into(),
        subject: "s".into(),
        body_text: "x".repeat(130),
    });
    assert_eq!(r.snippet, "x".repeat(120));
    assert_eq!(r.from_norm, "ann@example.com");
    assert_eq!(r.to_norm, "bo@example.com");
    assert_eq!(r.addrs, "Ann@Example.com Ann BO@example.com");
}
