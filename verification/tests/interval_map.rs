use tex_parser::interval_map::{IntIntervalMap, IntervalMap};

#[test]
fn imap_map_init() {
    let map = IntIntervalMap::<u8, char>::new('a');
    assert_eq!('a', map.get(0));
    assert_eq!('a', map.get(255));
    assert_eq!('a', map.get(10));
}

#[test]
fn imap_map_single() {
    let mut map = IntIntervalMap::<u8, char>::new('a');
    map.assign(10..20, 'b');
    assert_eq!('a', map.get(0));
    assert_eq!('a', map.get(255));
    assert_eq!('b', map.get(10));
    assert_eq!('b', map.get(19));
    assert_eq!('a', map.get(20));
}

#[test]
fn imap_test_seq() {
    let mut map = IntIntervalMap::<u8, char>::new('z');
    map.assign(2..20, 'a');
    map.assign(1..5, 'a');
    map.assign(10..30, 'b');
    map.assign(11..31, 'b');
    map.assign(5..15, 'c');
    map.assign(0..30, 'a');
    map.assign(0..30, 'a');
    map.assign_single(10, '!');

    assert_eq!('!', map.get(10));
    assert_eq!('a', map.get(11));
    assert_eq!('a', map.get(0));
    assert_eq!('z', map.get(255));
    assert_eq!('b', map.get(30));
    assert_eq!('z', map.get(31));
}

#[test]
fn interval_map_map_init() {
    let map = IntIntervalMap::<u8, char>::new('a');
    assert_eq!('a', map.get(0));
    assert_eq!('a', map.get(255));
    assert_eq!('a', map.get(10));
}

#[test]
fn interval_map_map_single() {
    let mut map = IntIntervalMap::<u8, char>::new('a');
    map.assign(10..20, 'b');
    assert_eq!('a', map.get(0));
    assert_eq!('a', map.get(255));
    assert_eq!('b', map.get(10));
    assert_eq!('b', map.get(19));
    assert_eq!('a', map.get(20));
}

#[test]
fn interval_map_test_seq() {
    let mut map = IntIntervalMap::<u8, char>::new('z');
    map.assign(2..20, 'a');
    map.assign(1..5, 'a');
    map.assign(10..30, 'b');
    map.assign(11..31, 'b');
    map.assign(5..15, 'c');
    map.assign(0..30, 'a');
    map.assign(0..30, 'a');
    map.assign_single(10, '!');

    assert_eq!('!', map.get(10));
    assert_eq!('a', map.get(11));
    assert_eq!('a', map.get(0));
    assert_eq!('z', map.get(255));
    assert_eq!('b', map.get(30));
    assert_eq!('z', map.get(31));
}

/// The labels of all points of the domain of `u8`, read one by one.
fn labels(map: &IntIntervalMap<u8, char>) -> Vec<char> {
    (0..255u8).map(|p| map.get(p)).collect()
}

#[test]
fn latest_assignment_wins_pointwise() {
    let assignments: Vec<(u8, u8, char)> = vec![
        (2, 20, 'a'),
        (1, 5, 'a'),
        (10, 30, 'b'),
        (11, 31, 'b'),
        (5, 15, 'c'),
        (0, 30, 'a'),
        (200, 255, 'q'),
        (0, 1, 'r'),
        (254, 255, 's'),
        (100, 100, 't'),
        (120, 110, 'u'),
        (0, 255, 'v'),
        (7, 8, 'w'),
    ];
    let mut map = IntIntervalMap::<u8, char>::new('z');
    let mut model: Vec<char> = vec!['z'; 255];
    assert_eq!(model, labels(&map));
    for (lo, hi, value) in assignments {
        map.assign(lo..hi, value);
        for p in lo..hi {
            model[p as usize] = value;
        }
        assert_eq!(model, labels(&map));
    }
}

#[test]
fn empty_and_inverted_ranges_change_nothing() {
    let mut map = IntIntervalMap::<u8, char>::new('a');
    map.assign(10..20, 'b');
    let before = map.clone();
    map.assign(15..15, 'c');
    assert_eq!(before, map);
    map.assign(18..12, 'c');
    assert_eq!(before, map);
    map.assign(0..0, 'c');
    assert_eq!(before, map);
    map.assign(255..255, 'c');
    assert_eq!(before, map);
}

#[test]
fn equal_assignment_histories_give_equal_maps() {
    // The list of intervals is kept minimal, so maps that label every point
    // alike are equal, however they came about.
    let mut one = IntIntervalMap::<u8, char>::new('a');
    one.assign(10..20, 'b');
    one.assign(20..30, 'b');
    one.assign(30..40, 'c');
    one.assign(30..40, 'a');
    let mut two = IntIntervalMap::<u8, char>::new('a');
    two.assign(10..30, 'b');
    assert_eq!(one, two);

    let mut three = IntIntervalMap::<u8, char>::new('a');
    three.assign(0..255, 'x');
    assert_eq!(IntIntervalMap::<u8, char>::new('x'), three);

    let mut four = IntIntervalMap::<u8, char>::new('a');
    four.assign(10..20, 'b');
    four.assign(10..20, 'a');
    assert_eq!(IntIntervalMap::<u8, char>::new('a'), four);
}

#[test]
fn domain_maximum_shares_the_last_label() {
    let mut map = IntIntervalMap::<u8, char>::new('a');
    assert_eq!('a', map.get(255));
    map.assign(250..255, 'b');
    assert_eq!('a', map.get(249));
    assert_eq!('b', map.get(250));
    assert_eq!('b', map.get(254));
    assert_eq!('b', map.get(255));
}

#[test]
fn assign_single_at_the_ends_of_the_domain() {
    let mut map = IntIntervalMap::<u8, char>::new('a');
    map.assign_single(0, 'b');
    map.assign_single(254, 'c');
    assert_eq!('b', map.get(0));
    assert_eq!('a', map.get(1));
    assert_eq!('a', map.get(253));
    assert_eq!('c', map.get(254));
}

#[test]
fn wide_index_types() {
    let mut map = IntIntervalMap::<u32, bool>::new(false);
    map.assign(0x41..0x5b, true);
    map.assign_single(0x10FFFF, true);
    assert!(!map.get(0x40));
    assert!(map.get(0x41));
    assert!(map.get(0x5a));
    assert!(!map.get(0x5b));
    assert!(map.get(0x10FFFF));
    assert!(!map.get(0x110000));
    assert!(!map.get(u32::MAX));

    let mut wide = IntIntervalMap::<u64, u8>::new(0);
    wide.assign(1 << 40..1 << 41, 7);
    assert_eq!(0, wide.get((1 << 40) - 1));
    assert_eq!(7, wide.get(1 << 40));
    assert_eq!(0, wide.get(1 << 41));

    let mut small = IntIntervalMap::<u16, char>::new('a');
    small.assign(1000..2000, 'b');
    assert_eq!('b', small.get(1999));
    assert_eq!('a', small.get(2000));

    let mut sized = IntIntervalMap::<usize, u64>::new(1);
    sized.assign(3..4, 2);
    assert_eq!(1, sized.get(2));
    assert_eq!(2, sized.get(3));
    assert_eq!(1, sized.get(4));
}

/// The intervals of `map` are in order, none is empty, no two neighbours
/// carry the same label, and the last one ends at the top of the domain.
fn assert_minimal(map: &IntIntervalMap<u8, char>) {
    let intervals = map.intervals();
    assert!(!intervals.is_empty());
    assert_eq!(255, intervals[intervals.len() - 1].0);
    assert!(intervals[0].0 > 0);
    for pair in intervals.windows(2) {
        assert!(pair[0].0 < pair[1].0, "{:?}", intervals);
        assert_ne!(pair[0].1, pair[1].1, "{:?}", intervals);
    }
}

#[test]
fn intervals_stay_sorted_and_minimal() {
    let mut map = IntIntervalMap::<u8, char>::new('z');
    assert_eq!(&vec![(255, 'z')], map.intervals());
    assert_minimal(&map);
    map.assign(2..20, 'a');
    assert_eq!(&vec![(2, 'z'), (20, 'a'), (255, 'z')], map.intervals());
    map.assign(1..5, 'a');
    assert_eq!(&vec![(1, 'z'), (20, 'a'), (255, 'z')], map.intervals());
    map.assign(10..30, 'b');
    assert_eq!(&vec![(1, 'z'), (10, 'a'), (30, 'b'), (255, 'z')], map.intervals());
    map.assign(11..31, 'b');
    assert_eq!(&vec![(1, 'z'), (10, 'a'), (31, 'b'), (255, 'z')], map.intervals());
    map.assign(5..15, 'c');
    assert_eq!(
        &vec![(1, 'z'), (5, 'a'), (15, 'c'), (31, 'b'), (255, 'z')],
        map.intervals()
    );
    map.assign(0..30, 'a');
    assert_eq!(&vec![(30, 'a'), (31, 'b'), (255, 'z')], map.intervals());
    map.assign(0..30, 'a');
    assert_eq!(&vec![(30, 'a'), (31, 'b'), (255, 'z')], map.intervals());
    map.assign_single(10, '!');
    assert_eq!(
        &vec![(10, 'a'), (11, '!'), (30, 'a'), (31, 'b'), (255, 'z')],
        map.intervals()
    );
    assert_minimal(&map);
    // A range that starts where an interval starts, and one that ends where one ends.
    map.assign(11..20, 'q');
    assert_eq!(
        &vec![(10, 'a'), (11, '!'), (20, 'q'), (30, 'a'), (31, 'b'), (255, 'z')],
        map.intervals()
    );
    map.assign(25..30, 'q');
    assert_eq!(
        &vec![(10, 'a'), (11, '!'), (20, 'q'), (25, 'a'), (30, 'q'), (31, 'b'), (255, 'z')],
        map.intervals()
    );
    assert_minimal(&map);
    // A range over several intervals, up to the top of the domain.
    map.assign(15..255, 'a');
    assert_eq!(&vec![(10, 'a'), (11, '!'), (15, 'q'), (255, 'a')], map.intervals());
    map.assign(0..255, 'a');
    assert_eq!(&vec![(255, 'a')], map.intervals());
}

#[test]
fn intervals_stay_minimal_under_many_assignments() {
    // A fixed pseudo-random walk over ranges and labels.
    let mut map = IntIntervalMap::<u8, char>::new('a');
    let mut model: Vec<char> = vec!['a'; 255];
    let mut seed: u32 = 12345;
    for _ in 0..2000 {
        seed = seed.wrapping_mul(1103515245).wrapping_add(12345);
        let lo = (seed >> 16) as u8;
        seed = seed.wrapping_mul(1103515245).wrapping_add(12345);
        let hi = (seed >> 16) as u8;
        seed = seed.wrapping_mul(1103515245).wrapping_add(12345);
        let value = (b'a' + ((seed >> 16) % 4) as u8) as char;
        map.assign(lo..hi, value);
        for p in lo..hi {
            if p < 255 {
                model[p as usize] = value;
            }
        }
        assert_minimal(&map);
        assert_eq!(model, labels(&map));
        assert_eq!(model[254], map.get(255));
    }
}
