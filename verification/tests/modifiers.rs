use engiffen::modifiers::{modify, reverse, shuffle, shuffle_window, Modifier};

#[test]
fn reverse_turns_the_order_round() {
    let mut odd = vec![1, 2, 3, 4, 5];
    reverse(&mut odd);
    assert_eq!(odd, vec![5, 4, 3, 2, 1]);
    let mut even = vec!["a", "b", "c", "d"];
    reverse(&mut even);
    assert_eq!(even, vec!["d", "c", "b", "a"]);
}

#[test]
fn reverse_of_nothing_and_of_one() {
    let mut none: Vec<u8> = vec![];
    reverse(&mut none);
    assert_eq!(none, Vec::<u8>::new());
    let mut one = vec![7];
    reverse(&mut one);
    assert_eq!(one, vec![7]);
}

#[test]
fn reverse_twice_is_the_start() {
    let mut items = vec![3, 1, 4, 1, 5, 9, 2, 6];
    reverse(&mut items);
    reverse(&mut items);
    assert_eq!(items, vec![3, 1, 4, 1, 5, 9, 2, 6]);
}

#[test]
fn shuffle_makes_the_swaps_in_order() {
    let mut items = vec!['a', 'b', 'c', 'd'];
    shuffle(&mut items, &[(3, 1), (1, 0), (2, 2)]);
    assert_eq!(items, vec!['d', 'a', 'c', 'b']);
    let mut same = vec![1, 2, 3];
    shuffle(&mut same, &[]);
    assert_eq!(same, vec![1, 2, 3]);
}

#[test]
fn shuffle_window_reaches_half_way_to_either_side() {
    assert_eq!(shuffle_window(4, 10), (2, 6));
    assert_eq!(shuffle_window(9, 10), (5, 9));
    assert_eq!(shuffle_window(7, 10), (4, 9));
    assert_eq!(shuffle_window(1, 2), (1, 1));
    assert_eq!(shuffle_window(0, 1), (0, 0));
    assert_eq!(shuffle_window(usize::MAX - 1, usize::MAX), (usize::MAX / 2, usize::MAX - 1));
}

#[test]
fn modify_applies_each_modifier_in_turn() {
    let mut items = vec![1, 2, 3, 4];
    modify(
        &mut items,
        &[Modifier::Reverse, Modifier::Shuffle(vec![(0, 3)]), Modifier::Reverse],
    );
    assert_eq!(items, vec![4, 2, 3, 1]);
    let mut untouched = vec![1, 2, 3];
    modify(&mut untouched, &[]);
    assert_eq!(untouched, vec![1, 2, 3]);
}
