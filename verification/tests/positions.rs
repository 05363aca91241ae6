use petrel::store::positions::{neighbour, numbered, step, Standing};

fn at(id: i64, position: i64) -> Standing {
    Standing { id, position }
}

#[test]
fn a_step_changes_places_with_the_nearest() {
    let all = vec![at(1, 0), at(2, 5), at(3, 9)];
    let up = step(&all, all[2], true).unwrap();
    assert_eq!(up.moved, at(3, 5));
    assert_eq!(up.other, at(2, 9));
    let down = step(&all, all[0], false).unwrap();
    assert_eq!(down.moved, at(1, 5));
    assert_eq!(down.other, at(2, 0));
    assert!(step(&all, all[0], true).is_none());
    assert!(step(&all, all[2], false).is_none());
    assert!(neighbour(&vec![], 0, true).is_none());
}

#[test]
fn a_step_back_undoes_a_step() {
    let all = vec![at(1, 0), at(2, 5), at(3, 9)];
    let there = step(&all, all[1], false).unwrap();
    let after = vec![at(1, 0), there.moved, there.other];
    let back = step(&after, there.moved, true).unwrap();
    assert_eq!(back.moved, at(2, 5));
    assert_eq!(back.other, at(3, 9));
}

#[test]
fn a_dragged_list_is_numbered_from_nought() {
    assert_eq!(numbered(&vec![7, 3, 5]), vec![at(7, 0), at(3, 1), at(5, 2)]);
    assert!(numbered(&vec![]).is_empty());
}
