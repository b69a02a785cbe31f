use muvor::label::{reading_order, Alphabet, AlphabetError, Labels, Point, Progress, ROW_BAND};

fn points(list: &[(i32, i32)]) -> Vec<Point> {
    list.iter().map(|&(x, y)| Point::new(x, y)).collect()
}

#[test]
fn reading_order_is_rows_then_columns() {
    let p = points(&[(300, 100), (100, 10), (300, 10), (100, 100), (200, 10), (200, 100)]);
    let order = reading_order(&p);
    let xs: Vec<(i32, i32)> = order.iter().map(|&i| (p[i].x, p[i].y)).collect();
    assert_eq!(xs, vec![(100, 10), (200, 10), (300, 10), (100, 100), (200, 100), (300, 100)]);
}

#[test]
fn a_row_that_is_not_pixel_aligned_is_still_one_row() {
    let p = points(&[(1880, 8), (6, 0), (1789, 0), (1831, 0)]);
    let order = reading_order(&p);
    let xs: Vec<i32> = order.iter().map(|&i| p[i].x).collect();
    assert_eq!(xs, vec![6, 1789, 1831, 1880]);
}

#[test]
fn rows_further_apart_than_the_band_stay_separate() {
    let p = points(&[(500, 0), (10, ROW_BAND + 1)]);
    let order = reading_order(&p);
    assert_eq!(order, vec![0, 1], "the lower-left target must not jump ahead of the upper-right one");
}

#[test]
fn same_tree_same_labels_whatever_order_it_arrives_in() {
    let a = points(&[(10, 10), (200, 10), (10, 90), (200, 90), (95, 300)]);
    let shuffled = points(&[(95, 300), (200, 90), (10, 10), (10, 90), (200, 10)]);

    let la = Labels::assign(Alphabet::default(), &a);
    let lb = Labels::assign(Alphabet::default(), &shuffled);

    for (i, point) in a.iter().enumerate() {
        let j = shuffled.iter().position(|q| q == point).expect("same set");
        assert_eq!(
            la.label_of(i),
            lb.label_of(j),
            "{point:?} must keep its label however the list was ordered"
        );
    }
}

#[test]
fn columns_name_where_a_target_is() {
    let p = [
        Point::new(24, 23),
        Point::new(1807, 23),
        Point::new(1849, 23),
        Point::new(1897, 23),
        Point::new(471, 67),
        Point::new(1405, 67),
    ];
    let l = Labels::in_columns(Alphabet::default(), Alphabet::ranks(), &p, 0, 1920);

    assert_eq!(l.label_len(), 2, "ten per column fits in two keys");
    assert_eq!(l.label_of(0), Some("aa"), "leftmost column, first down it");
    assert_eq!(l.label_of(1), Some(";a"));
    assert_eq!(l.label_of(2), Some(";s"));
    assert_eq!(l.label_of(3), Some(";d"));
    assert_eq!(l.label_of(4), Some("da"), "471/1920 -> column 2");
    assert_eq!(l.label_of(5), Some("ka"), "1405/1920 -> column 7");
}

#[test]
fn a_new_target_elsewhere_does_not_move_a_label() {
    let alphabet = Alphabet::default();
    let before = [Point::new(24, 23), Point::new(1849, 23)];
    let after = [Point::new(24, 23), Point::new(1849, 23), Point::new(500, 23)];

    let a = Labels::in_columns(alphabet.clone(), Alphabet::ranks(), &before, 0, 1920);
    let b = Labels::in_columns(alphabet.clone(), Alphabet::ranks(), &after, 0, 1920);
    assert_eq!(a.label_of(0), b.label_of(0));
    assert_eq!(a.label_of(1), b.label_of(1));

    let c = Labels::assign(alphabet.clone(), &before);
    let d = Labels::assign(alphabet, &after);
    assert_eq!(c.label_of(1), Some("as"));
    assert_eq!(d.label_of(1), Some("ad"), "the odometer moved it");
}

#[test]
fn a_crowded_column_walks_out_to_the_other_rows() {
    let p: Vec<Point> = (0..32).map(|i| Point::new(100, i * 40)).collect();
    let l = Labels::in_columns(Alphabet::default(), Alphabet::ranks(), &p, 0, 1920);

    assert_eq!(l.label_len(), 2, "sixty ranks is still one key");
    assert_eq!(l.label_of(0), Some("aa"), "home row first");
    assert_eq!(l.label_of(9), Some("a;"), "…to the end of it");
    assert_eq!(l.label_of(10), Some("aq"), "then the top row");
    assert_eq!(l.label_of(19), Some("ap"));
    assert_eq!(l.label_of(20), Some("az"), "then the bottom row");
    assert_eq!(l.label_of(29), Some("a/"));
    assert_eq!(l.label_of(30), Some("aA"), "then shifted, home row again");
    assert_eq!(l.label_of(31), Some("aS"));
}

#[test]
fn a_column_deeper_than_the_ranks_lengthens_every_label() {
    let p: Vec<Point> = (0..61).map(|i| Point::new(100, i * 40)).collect();
    let l = Labels::in_columns(Alphabet::default(), Alphabet::ranks(), &p, 0, 1920);
    assert_eq!(l.label_len(), 3);
    assert_eq!(l.label_of(0), Some("aaa"));
    assert_eq!(l.label_of(60), Some("asa"));
    let all: Vec<&str> = l.iter().into_iter().map(|(s, _)| s).collect();
    for a in &all {
        assert_eq!(all.iter().filter(|b| b.starts_with(*a)).count(), 1);
    }
}

#[test]
fn a_shifted_rank_is_typed_like_any_other() {
    let p: Vec<Point> = (0..31).map(|i| Point::new(100, i * 40)).collect();
    let l = Labels::in_columns(Alphabet::default(), Alphabet::ranks(), &p, 0, 1920);
    let mut t = l.typing();
    assert!(matches!(t.press('a'), Progress::Pending { .. }));
    assert_eq!(t.press('A'), Progress::Hit { target: 30 });

    let mut t = l.typing();
    assert_eq!(t.press('§'), Progress::Miss);
    assert_eq!(t.typed(), "");
}

#[test]
fn a_target_outside_the_span_lands_in_the_nearest_column() {
    let p = [Point::new(-40, 10), Point::new(5000, 10)];
    let l = Labels::in_columns(Alphabet::default(), Alphabet::ranks(), &p, 0, 1920);
    assert_eq!(l.label_of(0), Some("aa"));
    assert_eq!(l.label_of(1), Some(";a"));
}

#[test]
fn a_degenerate_span_does_not_divide_by_zero() {
    let p = [Point::new(10, 10), Point::new(20, 20)];
    let l = Labels::in_columns(Alphabet::default(), Alphabet::ranks(), &p, 0, 0);
    assert_eq!(l.label_of(0), Some("aa"));
    assert_eq!(l.label_of(1), Some("as"));
}

#[test]
fn labels_are_handed_out_in_reading_order() {
    let p = points(&[(200, 10), (10, 10), (10, 90)]);
    let l = Labels::assign(Alphabet::default(), &p);
    assert_eq!(l.label_of(1), Some("aa"));
    assert_eq!(l.label_of(0), Some("as"));
    assert_eq!(l.label_of(2), Some("ad"));
}

#[test]
fn every_label_is_the_same_length_and_they_are_all_distinct() {
    for n in [1usize, 4, 33, 99, 100, 101, 500] {
        let p: Vec<Point> = (0..n).map(|i| Point::new((i % 20) as i32 * 40, (i / 20) as i32 * 40)).collect();
        let l = Labels::assign(Alphabet::default(), &p);
        let expect = if n <= 100 { 2 } else { 3 };
        assert_eq!(l.label_len(), expect, "{n} targets");
        let mut all: Vec<&str> = l.iter().into_iter().map(|(s, _)| s).collect();
        all.sort_unstable();
        let before = all.len();
        all.dedup();
        assert_eq!(all.len(), before, "{n} targets produced a duplicate label");
        assert!(all.iter().all(|s| s.chars().count() == expect));
    }
}

#[test]
fn no_label_is_a_prefix_of_another() {
    let p: Vec<Point> = (0..64).map(|i| Point::new((i % 8) * 40, (i / 8) * 40)).collect();
    let l = Labels::assign(Alphabet::default(), &p);
    let all: Vec<&str> = l.iter().into_iter().map(|(s, _)| s).collect();
    for a in &all {
        for b in &all {
            assert!(a == b || !b.starts_with(a), "{a} is a prefix of {b}");
        }
    }
}

#[test]
fn typing_a_label_hits_its_target() {
    let p = points(&[(10, 10), (200, 10), (10, 90)]);
    let l = Labels::assign(Alphabet::default(), &p);
    let mut t = l.typing();
    assert_eq!(t.press('a'), Progress::Pending { matches: 3 });
    assert_eq!(t.press('d'), Progress::Hit { target: 2 });
}

#[test]
fn a_key_outside_the_alphabet_is_a_miss_and_changes_nothing() {
    let p = points(&[(10, 10), (200, 10)]);
    let l = Labels::assign(Alphabet::default(), &p);
    let mut t = l.typing();
    assert_eq!(t.press('q'), Progress::Miss);
    assert_eq!(t.typed(), "");
    assert_eq!(t.press('a'), Progress::Pending { matches: 2 });
}

#[test]
fn a_valid_character_with_no_label_behind_it_is_a_miss() {
    let p = points(&[(10, 10), (200, 10)]);
    let l = Labels::assign(Alphabet::default(), &p);
    let mut t = l.typing();
    assert_eq!(t.press('s'), Progress::Miss, "only 'aa' and 'as' exist");
    assert_eq!(t.typed(), "");
}

#[test]
fn backspace_returns_to_the_previous_prefix() {
    let p: Vec<Point> = (0..30).map(|i| Point::new((i % 6) * 40, (i / 6) * 40)).collect();
    let l = Labels::assign(Alphabet::default(), &p);
    let mut t = l.typing();
    t.press('a');
    assert_eq!(t.matches(), 10);
    t.press('d');
    assert_eq!(t.matches(), 1);
    t.backspace();
    assert_eq!(t.typed(), "a");
    assert_eq!(t.matches(), 10);
}

#[test]
fn candidates_narrow_as_keys_arrive() {
    let p: Vec<Point> = (0..25).map(|i| Point::new((i % 5) * 40, (i / 5) * 40)).collect();
    let l = Labels::assign(Alphabet::default(), &p);
    let mut t = l.typing();
    assert_eq!(t.candidates().len(), 25);
    t.press('a');
    assert_eq!(t.candidates().len(), 10);
    assert!(t.candidates().iter().all(|(label, _)| label.starts_with('a')));
}

#[test]
fn an_alphabet_must_be_usable() {
    assert_eq!(Alphabet::new("a"), Err(AlphabetError::TooShort));
    assert_eq!(Alphabet::new("aba"), Err(AlphabetError::Duplicate('a')));
    assert!(Alphabet::new("asdf").is_ok());
}

#[test]
fn a_smaller_alphabet_just_means_longer_labels() {
    let alphabet = Alphabet::new("ab").expect("valid");
    let p: Vec<Point> = (0..8).map(|i| Point::new(0, i * 40)).collect();
    let l = Labels::assign(alphabet, &p);
    assert_eq!(l.label_len(), 3);
    assert_eq!(l.label_of(0), Some("aaa"));
    assert_eq!(l.label_of(7), Some("bbb"));
}

#[test]
fn no_targets_is_not_a_panic() {
    let l = Labels::assign(Alphabet::default(), &[]);
    assert!(l.is_empty());
    let mut t = l.typing();
    assert_eq!(t.press('a'), Progress::Miss);
}
