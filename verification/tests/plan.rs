use petrel::search_query::parse;
use petrel::store::search::plan::{as_lookups, pruned, typing_word, without_nots, Words};
use petrel::store::search::statements::{bundles, fts, Bundle};

/// A query as it would be asked: one line per statement, in the form
/// `<index> <words> | <conditions> | typing:<word>`.
fn plan(query: &str) -> String {
    let q = parse(query);
    let Some(root) = &q.root else {
        return String::new();
    };
    let node = without_nots(root, false);
    let typing = typing_word(&node);
    let bundles = bundles(&node).unwrap_or_else(|| {
        let mut whole = Bundle::new();
        whole.conds = pruned(as_lookups(&node)).into_iter().collect();
        vec![whole]
    });
    bundles
        .iter()
        .map(|bundle| {
            let cjk = bundle.wanted.iter().any(Words::cjk);
            let words: Vec<String> = bundle
                .wanted
                .iter()
                .filter_map(|w| fts(w, w.cjk(), typing.map(|t| t.at)))
                .map(|chars| chars.into_iter().collect())
                .collect();
            let index = match (words.is_empty(), cjk) {
                (true, _) => "rows",
                (_, true) => "cjk",
                (_, false) => "fts",
            };
            let unwanted: Vec<&str> = bundle
                .unwanted
                .iter()
                .map(|(_, text)| text.value.as_str())
                .collect();
            let conds = bundle.conds.len();
            format!(
                "{index} {}{}{} | conds {conds}",
                words.join(" AND "),
                if unwanted.is_empty() { "" } else { " NOT " },
                unwanted.join(" "),
            )
        })
        .collect::<Vec<_>>()
        .join("\n")
        + &typing.map_or(String::new(), |word| format!(" | typing:{}", word.text.value))
}

#[test]
fn like_is_kept_with_like() {
    // One word, one statement, and the word still being typed.
    assert_eq!(
        plan("meeting"),
        "fts \"meeting\"* | conds 0 | typing:meeting"
    );
    // Bracketed choices of the same kind stay one statement and one
    // ranking, which is what makes a bracketed query cost what its
    // words cost.
    assert_eq!(
        plan("(from:sam OR from:dana) meeting"),
        "fts \"meeting\"* | conds 1 | typing:meeting"
    );
    // The prefix goes to the last word in the query, inside the
    // brackets as outside them.
    assert_eq!(
        plan("(meeting OR budget) from:sam"),
        "fts (\"meeting\" OR \"budget\"*) | conds 1 | typing:budget"
    );
    // Only a choice between a word and a condition is asked twice.
    assert_eq!(
        plan("meeting OR from:sam"),
        "fts \"meeting\"* | conds 0\nrows  | conds 1 | typing:meeting"
    );
}

#[test]
fn a_query_too_wide_to_multiply_is_asked_whole() {
    let wide = "(a OR from:one) (b OR from:two) (c OR from:three)";
    assert!(bundles(&without_nots(parse(wide).root.as_ref().unwrap(), false)).is_none());
    assert_eq!(plan(wide), "rows  | conds 1 | typing:c");
    // One fewer choice still multiplies out, four statements at most.
    let narrow = "(a OR from:one) (b OR from:two)";
    let count = bundles(&without_nots(parse(narrow).root.as_ref().unwrap(), false))
        .expect("four statements are allowed")
        .len();
    assert_eq!(count, 4);
}

#[test]
fn the_word_being_typed_is_the_last_one_the_index_keeps() {
    assert_eq!(plan("lun"), "fts \"lun\"* | conds 0 | typing:lun");
    // A lone dash is a dash, not an exclusion, and the index keeps
    // neither it nor a bracket.
    assert_eq!(plan("lun -"), "fts \"lun\"* | conds 0 | typing:lun");
    assert_eq!(plan("lun ["), "fts \"lun\"* | conds 0 | typing:lun");
    // Finished with quotes, it is not being typed.
    assert_eq!(plan("\"lun\""), "fts \"lun\" | conds 0");
    // A filter after it does not take the prefix away.
    assert_eq!(plan("lun is:unread"), "fts \"lun\"* | conds 1 | typing:lun");
}

#[test]
fn each_script_is_asked_of_its_own_index() {
    // A CJK word is asked character by character, as the index holds
    // it, so its phrase is what keeps the characters together.
    assert_eq!(plan("東京"), "cjk \"東 京\" | conds 0 | typing:東京");
    assert_eq!(
        plan("東京 会議"),
        "cjk (\"東 京\" AND \"会 議\") | conds 0 | typing:会議"
    );
    // Mixed: the CJK word ranks, the Latin word is asked beside it.
    assert_eq!(
        plan("東京 sato"),
        "cjk \"東 京\" AND \"sato\"* | conds 0 | typing:sato"
    );
}

#[test]
fn punctuation_is_not_a_word_and_not_a_script() {
    assert_eq!(plan("annex"), "fts \"annex\"* | conds 0 | typing:annex");
    assert_eq!(plan("・ annex"), "fts \"annex\"* | conds 0 | typing:annex");
    assert_eq!(plan("[ annex"), "fts \"annex\"* | conds 0 | typing:annex");
    // Beside a real CJK word it changes nothing either.
    assert_eq!(plan("・ 東京"), plan("東京"));
    assert_eq!(plan("・"), "rows  | conds 0");
}

#[test]
fn what_must_not_be_there_goes_where_it_can_be_asked() {
    assert_eq!(
        plan("contract -draft"),
        "fts \"contract\"* NOT draft | conds 0 | typing:contract"
    );
    assert_eq!(
        plan("東京 -sato"),
        "cjk \"東 京\" NOT sato | conds 0 | typing:東京"
    );
    assert_eq!(plan("-draft"), "rows  NOT draft | conds 0");
}
