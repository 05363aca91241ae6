use petrel::search_query::calendar::{date_of_number, Day};
use petrel::search_query::lexer::{lex, Lexeme};
use petrel::search_query::parse;
use petrel::store::rows::ThreadListing;
use petrel::store::search::hits::{
    day_of_text, listed_sql, merged_hits, midnight_ms, midnight_text, of_alternative, page_order,
    ranked_sql, roll_up, snippets_sql, sorted_order, sql_in_marks, width_of_page, Hit, RankedHit,
};
use petrel::store::search::bind::bind;
use petrel::store::search::plan::{typing_word, without_nots};
use petrel::store::search::statements::asked_bundles;
use petrel::store::views::{Sort, SortKey};

fn hit(id: i64, date_ms: i64, from: Option<usize>) -> Hit {
    Hit { id, date_ms, from }
}

#[test]
fn words_come_first_and_nothing_comes_twice() {
    let ranked = vec![
        RankedHit {
            rank: -3,
            hit: hit(1, 0, Some(0)),
        },
        RankedHit {
            rank: -9,
            hit: hit(2, 0, Some(1)),
        },
    ];
    let dated = vec![hit(3, 10, None), hit(2, 50, None), hit(4, 20, None)];
    let ids: Vec<i64> = merged_hits(&ranked, &dated).iter().map(|h| h.id).collect();
    assert_eq!(ids, vec![2, 1, 4, 3]);
}

#[test]
fn hits_roll_up_to_conversations() {
    let hits = vec![hit(1, 0, Some(0)), hit(2, 0, Some(0)), hit(3, 0, None), hit(4, 0, Some(1))];
    let threads = vec![Some(7), Some(7), None, Some(8)];
    let found = roll_up(&hits, &threads, 10);
    let pairs: Vec<(i64, i64)> = found.iter().map(|f| (f.thread_id, f.hit.id)).collect();
    assert_eq!(pairs, vec![(7, 1), (-3, 3), (8, 4)]);
    assert_eq!(roll_up(&hits, &threads, 1).len(), 1);
    assert_eq!(of_alternative(&found, 0), vec![(1, 7)]);
    assert_eq!(of_alternative(&found, 1), vec![(4, 8)]);
}

#[test]
fn rows_go_back_into_the_order_of_their_keys() {
    assert_eq!(page_order(&vec![5, 6, 7], &vec![7, 5, 6]), vec![2, 0, 1]);
    assert_eq!(page_order(&vec![9, 5], &vec![5]), vec![1, 0]);
}

fn listing(id: i64, display: &str, addr: &str, subject: &str, date_ms: i64) -> ThreadListing {
    ThreadListing {
        thread_id: id,
        id,
        from_display: display.into(),
        from_addr: addr.into(),
        subject: subject.into(),
        snippet: String::new(),
        date_ms,
        message_count: 1,
        participants: String::new(),
        unread: false,
        starred: false,
        has_attachments: false,
        tags: vec![],
        match_snippet: None,
        attachment_name: None,
    }
}

#[test]
fn results_are_sorted_as_a_list_is() {
    let rows = vec![
        listing(1, "Zoe", "z@x", "beta", 3),
        listing(2, "", "Ann@x", "Alpha", 1),
        listing(3, "bo", "b@x", "alpha", 2),
    ];
    let by = |key, ascending| sorted_order(&rows, Sort { key, ascending });
    assert_eq!(by(SortKey::Date, true), vec![1, 2, 0]);
    assert_eq!(by(SortKey::Date, false), vec![0, 2, 1]);
    assert_eq!(by(SortKey::Sender, true), vec![1, 2, 0]);
    assert_eq!(by(SortKey::Subject, true), vec![1, 2, 0]);
    assert_eq!(by(SortKey::Subject, false), vec![0, 2, 1]);
}

#[test]
fn statements_hold_no_values() {
    assert_eq!(sql_in_marks(0), "");
    assert_eq!(sql_in_marks(3), "?,?,?");
    assert!(snippets_sql(2).contains("IN (?,?)"));
    assert!(ranked_sql(true, " AND 1").contains("m.deleted_at_ms IS NULL AND 1"));
    assert!(ranked_sql(false, "").contains("FROM fts_messages f"));
    assert!(listed_sql("").contains("ORDER BY m.date_ms DESC LIMIT ?"));
    assert_eq!(width_of_page(1), 50);
    assert_eq!(width_of_page(100), 300);
    assert_eq!(width_of_page(u32::MAX), 600);
}

#[test]
fn a_day_is_a_day_where_the_reader_is() {
    let day = Day {
        year: 2026,
        month: 8,
        day: 4,
    };
    assert_eq!(midnight_text(day), "2026-08-04 00:00:00");
    assert_eq!(midnight_ms(day, Some(12)), 12_000);
    assert_eq!(midnight_ms(day, None), 1_785_801_600_000);
    assert_eq!(day_of_text("2026-08-04"), Some(day));
    assert_eq!(day_of_text("2026-08"), None);
    assert_eq!(day_of_text("-1-08-04"), None);
}

#[test]
fn the_calendar_counts_every_day() {
    let d = date_of_number(0);
    assert_eq!((d.year, d.month, d.day), (1970, 1, 1));
    let d = date_of_number(20_669);
    assert_eq!((d.year, d.month, d.day), (2026, 8, 4));
    let d = date_of_number(-1);
    assert_eq!((d.year, d.month, d.day), (1969, 12, 31));
}

#[test]
fn a_query_reads_back_as_it_was_written() {
    for typed in [
        "from:ann subject:\"two words\" -tag:done",
        "(invoice OR receipt) in:inbox after:2026-01",
        "NOT (a b)",
        "is:unread has:attachment",
        "會議 meeting",
    ] {
        let once = parse(typed).to_text();
        assert_eq!(parse(&once).to_text(), once);
        assert_eq!(parse(&once).root, parse(typed).root);
    }
}

#[test]
fn a_day_nobody_can_place_is_counted_in_utc() {
    let day = |year, month, day| Day { year, month, day };
    assert_eq!(midnight_ms(day(1970, 1, 2), None), 86_400_000);
    assert_eq!(midnight_ms(day(1970, 1, 2), Some(3)), 3000);
    // A day there is not is the one that many days on.
    assert_eq!(midnight_ms(day(2026, 2, 30), None), midnight_ms(day(2026, 3, 2), None));
}

#[test]
fn a_statement_has_a_mark_for_every_value() {
    for query in [
        "from:sam to:dana cc:İpek budget",
        "in:inbox is:unread tag:later -filename:report.pdf",
        "(from:a OR from:b OR in:trash) date:2026-08 after:2026-01-02 before:2027",
        "-draft is:snoozed has:attachment is:starred is:read",
        "会議 budget -資料 in:(work OR home)",
    ] {
        let q = parse(query);
        let node = without_nots(q.root.as_ref().unwrap(), false);
        let typing = typing_word(&node).map(|t| t.at);
        let mut seen = 0;
        for bundle in asked_bundles(&node) {
            if let Some(bound) = bind(&bundle, 7, typing) {
                let marks = bound.conditions.chars().filter(|c| *c == '?').count();
                assert_eq!(marks, bound.args.len(), "{query}");
                seen += 1;
            }
        }
        assert!(seen > 0, "{query}");
    }
}

#[test]
fn a_minus_belongs_to_the_bracket_after_it() {
    let typed: Vec<char> = "--from:(sam OR \"dana  wu\") -(a) NOT(b) :) c)".chars().collect();
    let all = lex(&typed);
    let mut depth = 0;
    for (i, lexeme) in all.iter().enumerate() {
        match lexeme {
            Lexeme::Open => depth += 1,
            Lexeme::Close => depth -= 1,
            Lexeme::Minus | Lexeme::Shared(_) => {
                assert!(matches!(all[i + 1], Lexeme::Shared(_) | Lexeme::Open))
            }
            Lexeme::Piece(piece) => {
                assert!(!piece.text.is_empty());
                assert!(!piece.text.contains(&'"'));
                if piece.quote_at.is_none() {
                    assert!(!piece.text.contains(&' '));
                }
            }
        }
        assert!(depth >= 0);
    }
    assert_eq!(all.iter().filter(|l| matches!(l, Lexeme::Minus)).count(), 2);
    assert_eq!(all.iter().filter(|l| matches!(l, Lexeme::Shared(_))).count(), 1);
}
