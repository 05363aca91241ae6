use petrel::store::threads::{asks_the_subject, choose_thread, lowest};

#[test]
fn references_win_and_the_lowest_number_stays() {
    let j = choose_thread(&vec![9, 4, 7, 4], Some(2), 11);
    assert_eq!(j.thread_id, 4);
    assert_eq!(j.merged, vec![9, 7]);
}

#[test]
fn the_order_links_turn_up_in_says_nothing() {
    let one = choose_thread(&vec![9, 4, 7], None, 11);
    let other = choose_thread(&vec![7, 9, 4, 9], None, 11);
    assert_eq!(one.thread_id, other.thread_id);
    let mut a = one.merged.clone();
    let mut b = other.merged.clone();
    a.sort();
    b.sort();
    assert_eq!(a, b);
}

#[test]
fn a_subject_is_only_asked_where_nothing_links() {
    assert!(asks_the_subject(&vec![], "quarterly budget review"));
    assert!(!asks_the_subject(&vec![3], "quarterly budget review"));
    assert!(!asks_the_subject(&vec![], "hello"));
    assert_eq!(choose_thread(&vec![], Some(2), 11).thread_id, 2);
    // A conversation of one, named after itself.
    let alone = choose_thread(&vec![], None, 11);
    assert_eq!(alone.thread_id, 11);
    assert!(alone.merged.is_empty());
}

#[test]
fn a_group_goes_under_its_lowest_number() {
    assert_eq!(lowest(&vec![5, 3, 8]), Some(3));
    assert_eq!(lowest(&vec![]), None);
}
