use petrel::keywords::{is_system_keyword, tag_keyword};

#[test]
fn atoms_survive_and_specials_munge() {
    assert_eq!(tag_keyword("Urgent"), "Urgent");
    assert_eq!(tag_keyword("Waiting on"), "Waiting_on");
    assert_eq!(tag_keyword("Q3 (review)"), "Q3__review_");
    // A name with no atom-safe character at all still yields a valid,
    // stable atom rather than a row of underscores.
    assert_eq!(tag_keyword("日本語"), "tag3");
    assert_eq!(tag_keyword("日本語"), tag_keyword("日本語"), "stable");
}

#[test]
fn machine_keywords_are_not_somebody_s_tags() {
    // RFC 5788's registered ones, and the kind clients invent. $purchases
    // is a real example: it arrived on a live account from another client
    // and turned into a sidebar entry nobody had made.
    for kw in [
        "$Forwarded",
        "$MDNSent",
        "$Junk",
        "$NotJunk",
        "$Phishing",
        "$purchases",
    ] {
        assert!(is_system_keyword(kw), "{kw} should be the machine's");
    }
    for kw in ["\\Seen", "\\Flagged", "\\Draft"] {
        assert!(is_system_keyword(kw), "{kw} should be the machine's");
    }
}

#[test]
fn a_persons_tags_are_left_alone() {
    for kw in [
        "Urgent",
        "Waiting_on",
        "Receipts",
        "_thing",
        "2026",
        "a.b-c+d=e",
    ] {
        assert!(!is_system_keyword(kw), "{kw} is somebody's tag");
    }
}

#[test]
fn a_tag_named_with_a_dollar_still_round_trips() {
    // It travels as an atom without the $, so it comes back matched by
    // munge to the tag it left from, and never looks like a system one.
    let travelled = tag_keyword("$mine");
    assert_eq!(travelled, "_mine");
    assert!(!is_system_keyword(&travelled));
}
