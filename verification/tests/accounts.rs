use petrel::store::accounts::{
    active_account, is_behind, needs_colour, next_account_colour, steps_due, text_is_stale,
    ACCOUNT_COLOURS, SCHEMA_VERSION,
};

#[test]
fn the_chosen_account_is_shown_while_it_is_there() {
    assert_eq!(active_account(Some("4"), &vec![2, 4]), Some(4));
    assert_eq!(active_account(Some("9"), &vec![2, 4]), Some(2));
    assert_eq!(active_account(Some("four"), &vec![2, 4]), Some(2));
    assert_eq!(active_account(Some("99999999999999999999"), &vec![2]), Some(2));
    assert_eq!(active_account(None, &vec![2, 4]), Some(2));
    assert_eq!(active_account(Some("4"), &vec![]), None);
}

#[test]
fn colours_are_handed_out_once_each() {
    assert_eq!(next_account_colour(&vec![]), "#0E7C86");
    assert_eq!(
        next_account_colour(&vec!["#0e7c86".to_string(), "".to_string()]),
        "#9A6B1F"
    );
    let all: Vec<String> = ACCOUNT_COLOURS.iter().map(|c| c.to_string()).collect();
    assert_eq!(next_account_colour(&all), "#0E7C86");
    let mut seven = all.clone();
    seven.push("#000000".into());
    assert_eq!(next_account_colour(&seven), "#9A6B1F");
    assert!(needs_colour(None));
    assert!(needs_colour(Some("")));
    assert!(!needs_colour(Some("#000000")));
}

#[test]
fn a_file_takes_the_steps_it_has_not_taken() {
    assert_eq!(steps_due(0), (1..=SCHEMA_VERSION).collect::<Vec<i64>>());
    assert_eq!(steps_due(-1), steps_due(0));
    assert_eq!(steps_due(22), vec![23, 24]);
    assert!(steps_due(24).is_empty());
    assert!(steps_due(25).is_empty());
    assert!(is_behind(23));
    assert!(!is_behind(24));
}

#[test]
fn an_upgrade_in_two_goes_takes_the_same_steps() {
    let mut both: Vec<i64> = steps_due(3).into_iter().filter(|s| *s <= 10).collect();
    both.extend(steps_due(10));
    assert_eq!(both, steps_due(3));
}

#[test]
fn older_text_is_derived_again() {
    assert!(text_is_stale(None));
    assert!(text_is_stale(Some("4")));
    assert!(text_is_stale(Some("five")));
    assert!(!text_is_stale(Some("5")));
    assert!(!text_is_stale(Some("6")));
}
