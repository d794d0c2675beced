use asteroids::iter::{EdgesCycleIterator, EdgesIterator};

#[test]
fn test_empty() {
    let mut iter = (0..0).edges_cycle();
    assert_eq!(iter.next(), None);
}

#[test]
fn test_length_1() {
    let mut iter = (0..1).edges_cycle();
    assert_eq!(iter.next(), Some((0, 0)));
    assert_eq!(iter.next(), None);
}

#[test]
fn test_length_2() {
    let mut iter = (0..2).edges_cycle();
    assert_eq!(iter.next(), Some((0, 1)));
    assert_eq!(iter.next(), Some((1, 0)));
    assert_eq!(iter.next(), None);
}

#[test]
fn test_length_3() {
    let mut iter = (0..3).edges_cycle();
    assert_eq!(iter.next(), Some((0, 1)));
    assert_eq!(iter.next(), Some((1, 2)));
    assert_eq!(iter.next(), Some((2, 0)));
    assert_eq!(iter.next(), None);
}

#[test]
fn iter_test_empty() {
    let mut iter = (0..0).edges();
    assert_eq!(iter.next(), None);
}

#[test]
fn iter_test_length_1() {
    let mut iter = (0..1).edges();
    assert_eq!(iter.next(), None);
}

#[test]
fn iter_test_length_2() {
    let mut iter = (0..2).edges();
    assert_eq!(iter.next(), Some((0, 1)));
    assert_eq!(iter.next(), None);
}

#[test]
fn iter_test_length_3() {
    let mut iter = (0..3).edges();
    assert_eq!(iter.next(), Some((0, 1)));
    assert_eq!(iter.next(), Some((1, 2)));
    assert_eq!(iter.next(), None);
}

#[test]
fn edges_cycle_over_vec_keeps_items() {
    let points = vec![(0.0, 0.0), (4.0, 0.0), (2.0, 3.0)];
    let edges = points.edges_cycle().into_vec();
    assert_eq!(
        edges,
        vec![
            ((0.0, 0.0), (4.0, 0.0)),
            ((4.0, 0.0), (2.0, 3.0)),
            ((2.0, 3.0), (0.0, 0.0)),
        ]
    );
}

#[test]
fn edges_over_vec_has_no_closing_pair() {
    let edges = vec!['a', 'b', 'c', 'd'].edges().into_vec();
    assert_eq!(edges, vec![('a', 'b'), ('b', 'c'), ('c', 'd')]);
}

#[test]
fn edges_cycle_after_partial_walk() {
    let mut iter = (5..8).edges_cycle();
    assert_eq!(iter.next(), Some((5, 6)));
    assert_eq!(iter.into_vec(), vec![(6, 7), (7, 5)]);
}
