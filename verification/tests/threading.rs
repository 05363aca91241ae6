use petrel::threading::{normalize_subject, subject_is_threadable};

#[test]
fn strips_reply_and_forward_prefixes() {
    for (input, expected) in [
        ("Re: Q3 vendor contracts", "Q3 vendor contracts"),
        ("RE: Q3 vendor contracts", "Q3 vendor contracts"),
        ("Fwd: Q3 vendor contracts", "Q3 vendor contracts"),
        ("Re: Re: Fwd: Q3 vendor contracts", "Q3 vendor contracts"),
        ("Q3 vendor contracts", "Q3 vendor contracts"),
    ] {
        assert_eq!(normalize_subject(input), expected, "input {input:?}");
    }
}

#[test]
fn handles_localized_prefixes() {
    // A thread crossing locales mixes these; they must all normalize to the
    // same string or the conversation splits in half.
    for input in [
        "AW: Quarterly figures",  // German
        "SV: Quarterly figures",  // Swedish/Danish
        "VS: Quarterly figures",  // Finnish
        "Odp: Quarterly figures", // Polish
        "R: Quarterly figures",   // (unknown prefix — left alone)
    ] {
        let out = normalize_subject(input);
        assert!(
            out == "Quarterly figures" || out == "R: Quarterly figures",
            "unexpected {out:?} from {input:?}"
        );
    }
    assert_eq!(
        normalize_subject("AW: Quarterly figures"),
        "Quarterly figures"
    );
}

#[test]
fn strips_mailing_list_tags() {
    assert_eq!(
        normalize_subject("[rust-dev] Re: async traits"),
        "async traits"
    );
    // A tag that is the whole subject is content, not decoration.
    assert_eq!(normalize_subject("[ANN]"), "[ANN]");
}

#[test]
fn collapses_whitespace_and_is_idempotent() {
    let once = normalize_subject("Re:   Q3    vendor   contracts ");
    assert_eq!(once, "Q3 vendor contracts");
    assert_eq!(
        normalize_subject(&once),
        once,
        "normalizing twice changes nothing"
    );
}

#[test]
fn generic_subjects_are_not_threadable() {
    for s in ["Hi", "hello", "thanks", "FYI", "meeting", "", "Update"] {
        assert!(
            !subject_is_threadable(&normalize_subject(s)),
            "{s:?} is too generic to thread on"
        );
    }
}

#[test]
fn distinctive_subjects_are_threadable() {
    for s in [
        "Q3 vendor contracts",
        "Re: async traits in 2026",
        "Invoice 2026-0912 for review",
    ] {
        assert!(subject_is_threadable(&normalize_subject(s)), "{s:?}");
    }
}

#[test]
fn a_prefix_is_known_however_far_off_its_colon() {
    for input in [
        "Re : x",
        "Re  : x",
        "Re\t: x",
        "RE \u{a0} :x",
        "Re  : Fwd\t: x",
        "[list]  Re  :  [2] x",
        "re[2]: aw   : x",
    ] {
        let once = normalize_subject(input);
        assert_eq!(once, "x", "input {input:?}");
        assert_eq!(normalize_subject(&once), once);
    }
}

#[test]
fn normalizing_twice_is_normalizing_once() {
    for input in [
        "",
        " \t ",
        "Re:",
        "[ANN]  ",
        "  [a]   [b]  ",
        "Re [2] : x",
        "a\tRe  : b",
        "Ref  x : y",
        "\u{3000}转发 : 回复:  报告\u{3000}",
    ] {
        let once = normalize_subject(input);
        assert_eq!(normalize_subject(&once), once, "input {input:?}");
        assert_eq!(once.split_whitespace().collect::<Vec<_>>().join(" "), once);
    }
}

#[test]
fn a_reply_comes_to_what_it_answers() {
    for subject in ["Q3  figures ", "", "Re  : budget", "[list] plan"] {
        for mark in ["Re", "AW", "doorst", "答复"] {
            assert_eq!(
                normalize_subject(&format!("{mark}: {subject}")),
                normalize_subject(subject)
            );
        }
    }
}
