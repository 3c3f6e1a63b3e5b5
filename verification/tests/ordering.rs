use aeco_patch_config::ordering::in_position_order;

#[test]
fn items_are_put_at_their_positions() {
    let tagged = vec![(2, "c"), (0, "a"), (3, "d"), (1, "b")];
    assert_eq!(in_position_order(tagged), Some(vec!["a", "b", "c", "d"]));
}

#[test]
fn items_in_order_stay_in_order() {
    let tagged = vec![(0, 10u8), (1, 20), (2, 30)];
    assert_eq!(in_position_order(tagged), Some(vec![10, 20, 30]));
}

#[test]
fn nothing_gives_nothing() {
    let tagged: Vec<(usize, String)> = vec![];
    assert_eq!(in_position_order(tagged), Some(vec![]));
}

#[test]
fn every_arrival_order_gives_the_same() {
    let arrivals = vec![
        vec![(0, 'x'), (1, 'y'), (2, 'z')],
        vec![(0, 'x'), (2, 'z'), (1, 'y')],
        vec![(1, 'y'), (0, 'x'), (2, 'z')],
        vec![(1, 'y'), (2, 'z'), (0, 'x')],
        vec![(2, 'z'), (0, 'x'), (1, 'y')],
        vec![(2, 'z'), (1, 'y'), (0, 'x')],
    ];
    for tagged in arrivals {
        assert_eq!(in_position_order(tagged), Some(vec!['x', 'y', 'z']));
    }
}

#[test]
fn position_beyond_the_count_is_refused() {
    assert_eq!(in_position_order(vec![(0, 'a'), (2, 'c')]), None);
    assert_eq!(in_position_order(vec![(1, 'a')]), None);
    assert_eq!(in_position_order(vec![(usize::MAX, 'a')]), None);
}

#[test]
fn position_taken_twice_is_refused() {
    assert_eq!(in_position_order(vec![(0, 'a'), (0, 'b')]), None);
    assert_eq!(in_position_order(vec![(1, 'a'), (0, 'b'), (1, 'c')]), None);
}

#[test]
fn results_keep_their_positions() {
    let tagged: Vec<(usize, Result<u8, String>)> =
        vec![(1, Err("late".to_string())), (2, Ok(3)), (0, Ok(1))];
    assert_eq!(
        in_position_order(tagged),
        Some(vec![Ok(1), Err("late".to_string()), Ok(3)])
    );
}
