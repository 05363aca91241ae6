use petrel::actions::ActionKind;
use petrel::message::{AddressLine, ParsedMessage};
use petrel::rules::{planned_actions, Actions, Condition, Envelope, Op, Rule};

fn rule(conds: &[(&str, &str)]) -> Rule {
    Rule {
        id: 1,
        position: 0,
        enabled: true,
        name: "r".into(),
        conditions: conds
            .iter()
            .map(|(f, c)| Condition {
                field: f.to_string(),
                header: None,
                op: Op::Contains,
                value: c.to_string(),
            })
            .collect(),
        actions: Actions::default(),
    }
}

fn line(role: &str, addr: &str, name: Option<&str>) -> AddressLine {
    AddressLine {
        role: role.to_string(),
        addr: addr.to_string(),
        name: name.map(|n| n.to_string()),
    }
}

#[test]
fn conditions_are_case_insensitive_contains_joined_by_and() {
    let env = Envelope::new(
        "Dana Wu <dana@vendorco.example>",
        "me@example.com",
        "Q3 Invoice attached",
        "billing.vendorco.example",
    );
    assert!(petrel::rules::matches(&rule(&[("from", "VENDORCO")]), &env));
    assert!(petrel::rules::matches(
        &rule(&[("subject", "invoice"), ("from", "dana@")]),
        &env
    ));
    assert!(!petrel::rules::matches(
        &rule(&[("subject", "invoice"), ("from", "nobody")]),
        &env
    ));
    assert!(petrel::rules::matches(&rule(&[("list_id", "billing.")]), &env));
    assert!(!petrel::rules::matches(&rule(&[("to", "someone-else")]), &env));
}

#[test]
fn a_move_is_not_undone_by_skipping_the_inbox() {
    let both = Actions {
        move_to: Some(7),
        skip_inbox: true,
        ..Actions::default()
    };
    let planned = planned_actions(&both);
    assert_eq!(
        planned,
        vec![(ActionKind::Move, Some(7))],
        "a named destination is the skip; Archive after it discards the move"
    );

    // Skipping the inbox with nowhere to go still means archive.
    let skip_only = Actions {
        skip_inbox: true,
        ..Actions::default()
    };
    assert_eq!(
        planned_actions(&skip_only),
        vec![(ActionKind::Archive, None)]
    );
}

#[test]
fn every_action_a_rule_can_carry_is_queued() {
    let all = Actions {
        move_to: Some(3),
        tag: Some(5),
        mark_read: true,
        skip_inbox: true,
        notify: true,
    };
    // notify is not a triage action: it is announced, not applied.
    assert_eq!(
        planned_actions(&all),
        vec![
            (ActionKind::Move, Some(3)),
            (ActionKind::Tag, Some(5)),
            (ActionKind::MarkRead, None),
        ]
    );
    assert!(planned_actions(&Actions::default()).is_empty());
}

#[test]
fn a_recipient_is_matched_by_name_as_well_as_by_address() {
    let parsed = ParsedMessage {
        message_id: Some("inv1@x".to_string()),
        references: vec![],
        from_display: Some("Dana Wu".to_string()),
        from_addr: Some("dana@vendorco.example".to_string()),
        to: vec![
            (Some("Sam Okafor".to_string()), "sam@example.com".to_string()),
            (None, "billing@example.com".to_string()),
        ],
        cc: vec![(Some("Ada Chen".to_string()), "ada@example.com".to_string())],
        subject: Some("Q3 Invoice attached".to_string()),
        list_id: None,
        date_ms: Some(1_787_061_720_000),
        index_text: "body".to_string(),
        headers: vec![],
        attachments: vec![],
        addresses: vec![
            line("from", "dana@vendorco.example", Some("Dana Wu")),
            line("to", "sam@example.com", Some("Sam Okafor")),
            line("to", "billing@example.com", None),
            line("cc", "ada@example.com", Some("Ada Chen")),
        ],
    };
    let env = Envelope::from_message(&parsed, 300);

    assert!(petrel::rules::matches(&rule(&[("to", "Sam Okafor")]), &env), "by name");
    assert!(petrel::rules::matches(&rule(&[("to", "sam@example")]), &env), "by address");
    assert!(
        petrel::rules::matches(&rule(&[("to", "billing@")]), &env),
        "second recipient"
    );
    // The half that always worked, still working the same way.
    assert!(petrel::rules::matches(&rule(&[("from", "Dana Wu")]), &env));
    assert!(petrel::rules::matches(&rule(&[("from", "dana@vendorco")]), &env));
    assert!(
        !petrel::rules::matches(&rule(&[("to", "dana")]), &env),
        "the sender is not a recipient"
    );

    // Cc is not silently folded into `to`. Every client keeps them apart
    // and offers "To or Cc" as its own condition; a To that quietly meant
    // more than To could not be reasoned about.
    assert!(!petrel::rules::matches(&rule(&[("to", "Ada Chen")]), &env));
    assert!(!petrel::rules::matches(&rule(&[("to", "ada@example")]), &env));
}

#[test]
fn empty_disabled_and_unknown_rules_match_nothing() {
    let env = Envelope::new("a@x", "b@x", "s", "");
    assert!(!petrel::rules::matches(&rule(&[]), &env), "no conditions is no match");
    let mut r = rule(&[("from", "a@x")]);
    r.enabled = false;
    assert!(!petrel::rules::matches(&r, &env), "disabled is disabled");
    assert!(
        !petrel::rules::matches(&rule(&[("headers", "x")]), &env),
        "an unknown field never matches"
    );
    assert!(
        !petrel::rules::matches(&rule(&[("from", "")]), &env),
        "an empty needle would match the world"
    );
}

fn on_header(name: &str, op: Op, value: &str) -> Rule {
    let mut r = rule(&[("header", value)]);
    r.conditions[0].header = Some(name.into());
    r.conditions[0].op = op;
    r
}

#[test]
fn a_half_written_condition_matches_nothing_however_it_is_phrased() {
    let env = Envelope::new("a@x", "b@x", "s", "");
    for op in [
        Op::Contains,
        Op::NotContains,
        Op::Is,
        Op::IsNot,
        Op::StartsWith,
        Op::NotStartsWith,
        Op::EndsWith,
        Op::NotEndsWith,
        Op::Over,
        Op::Under,
        Op::Before,
        Op::After,
    ] {
        for field in ["from", "to", "cc", "subject", "list_id", "body", "size", "date", "other"] {
            let mut r = rule(&[(field, "")]);
            r.conditions[0].op = op;
            assert!(!petrel::rules::matches(&r, &env), "{field} {op:?}");
            assert!(!petrel::rules::holds(&r.conditions[0], &env), "{field} {op:?}");
        }
        // A header that is not there least of all.
        assert!(!petrel::rules::matches(&on_header("X-Spam-Flag", op, ""), &env), "{op:?}");
    }
}

#[test]
fn a_header_is_asked_of_every_copy() {
    let mut env = Envelope::new("a@x", "b@x", "s", "");
    let is_spam = on_header("X-Spam-Flag", Op::Contains, "YES");
    let is_not = on_header("X-Spam-Flag", Op::NotContains, "YES");
    assert!(!petrel::rules::matches(&is_spam, &env));
    assert!(petrel::rules::matches(&is_not, &env), "what is not there contains nothing");
    env.headers = vec![
        ("x-spam-flag".into(), "No".into()),
        ("x-spam-flag".into(), "Yes".into()),
    ];
    assert!(petrel::rules::matches(&is_spam, &env));
    assert!(!petrel::rules::matches(&is_not, &env), "one innocent copy is not enough");
}

#[test]
fn questions_of_one_text() {
    assert!(petrel::rules::text_holds("q3 invoice", Op::Is, "Q3 Invoice"));
    assert!(petrel::rules::text_holds("q3 invoice", Op::StartsWith, "Q3"));
    assert!(petrel::rules::text_holds("q3 invoice", Op::EndsWith, "voice"));
    assert!(petrel::rules::text_holds("q3 invoice", Op::Contains, "3 I"));
    assert!(!petrel::rules::text_holds("q3 invoice", Op::NotContains, "3 I"));
    assert!(petrel::rules::text_holds("q3 invoice", Op::NotEndsWith, "q3"));
    assert!(!petrel::rules::text_holds("12", Op::Over, "3"), "a number's question asked of text");
}
