use petrel::mbox::split;

#[test]
fn splits_and_unescapes_the_writers_own_dialect() {
    let file = b"From a@example.com Mon Jan  1 00:00:00 2024\n\
Subject: one\n\
\n\
body one\n\
>From the mountains I write\n\
\n\
From b@example.com Mon Jan  1 00:00:01 2024\n\
Subject: two\n\
\n\
>From a blank line this would shear the message without its escape\n\
still message two\n\
\n";
    let msgs = split(file);
    assert_eq!(msgs.len(), 2, "{msgs:?}");
    let one = String::from_utf8_lossy(&msgs[0]);
    assert!(one.contains("Subject: one"), "{one}");
    assert!(one.contains("From the mountains"), "{one}");
    assert!(!one.contains(">From"), "escaping undone: {one}");
    let two = String::from_utf8_lossy(&msgs[1]);
    assert!(two.contains("still message two"), "{two}");
    assert!(two.contains("From a blank line"), "{two}");
    assert!(!two.contains(">From"), "{two}");
}

#[test]
fn an_unescaped_mid_paragraph_from_does_not_shear_the_message() {
    // A foreign writer that forgot to escape: the line is not after a
    // blank line, so it stays body.
    let file = b"From a@example.com Mon Jan  1 00:00:00 2024\n\
Subject: one\n\
\n\
first line\n\
From here on it gets interesting\n\
last line\n";
    let msgs = split(file);
    assert_eq!(msgs.len(), 1);
    assert!(String::from_utf8_lossy(&msgs[0]).contains("interesting"));
}

#[test]
fn an_empty_file_is_no_messages() {
    assert!(split(b"").is_empty());
    assert!(split(b"\n\n").is_empty());
}

#[test]
fn what_is_written_can_be_read_back() {
    let one = b"Subject: one\n\nFrom here on\nbody".to_vec();
    let two = b"Subject: two\n\nbody".to_vec();
    let mut file = petrel::mbox::mbox_entry("a@example.com", 0, &one);
    file.extend(petrel::mbox::mbox_entry("", 86_400_000, &two));
    let text = String::from_utf8(file.clone()).unwrap();
    assert!(text.starts_with("From a@example.com Thu Jan  1 00:00:00 1970\n"));
    assert!(text.contains("\n>From here on\n"));
    assert!(text.contains("From petrel@localhost Fri Jan  2 00:00:00 1970\n"));
    let back = petrel::mbox::split(&file);
    assert_eq!(back.len(), 2);
    assert_eq!(back[0], b"Subject: one\r\n\r\nFrom here on\r\nbody\r\n");
    assert_eq!(back[1], b"Subject: two\r\n\r\nbody\r\n");
}

#[test]
fn messages_as_they_travel_come_back_byte_for_byte() {
    let all: Vec<&[u8]> = vec![
        b"Subject: one\r\n\r\nFrom here on\r\n\r\nFrom there\r\nend\r\n",
        b"\r\n",
        b"Subject: three\r\n\r\n> From a quote\r\n",
    ];
    let mut file = Vec::new();
    for raw in &all {
        file.extend(petrel::mbox::mbox_entry("a@example.com", 0, raw));
    }
    assert_eq!(split(&file), all);
}
