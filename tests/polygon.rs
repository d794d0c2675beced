use asteroids::polygon::split;
use std::cmp::Ordering;

fn square() -> Vec<(i32, i32)> {
    vec![(0, 0), (4, 0), (4, 4), (0, 4)]
}

#[test]
fn split_square_by_vertical_line() {
    let crossings = vec![Some((2, 0)), None, Some((2, 4)), None];
    let order = vec![Ordering::Less, Ordering::Greater];
    let pieces = split(&square(), &crossings, &order);
    assert_eq!(
        pieces,
        vec![
            vec![(2, 0), (4, 0), (4, 4), (2, 4)],
            vec![(0, 0), (2, 0), (2, 4), (0, 4)],
        ]
    );
}

#[test]
fn split_without_crossing_returns_polygon() {
    let crossings = vec![None, None, None, None];
    let pieces = split(&square(), &crossings, &vec![]);
    assert_eq!(pieces, vec![square()]);
}

#[test]
fn split_with_one_crossing_returns_polygon() {
    let crossings = vec![None, Some((4, 2)), None, None];
    let pieces = split(&square(), &crossings, &vec![Ordering::Equal]);
    assert_eq!(pieces, vec![square()]);
}

#[test]
fn split_concave_polygon_in_three() {
    // a U shape cut by the line y = 2 through both prongs
    let polygon = vec![(0, 0), (6, 0), (6, 4), (4, 4), (4, 1), (2, 1), (2, 4), (0, 4)];
    let crossings = vec![
        None,
        Some((6, 2)),
        None,
        Some((4, 2)),
        None,
        Some((2, 2)),
        None,
        Some((0, 2)),
    ];
    let order = vec![
        Ordering::Greater,
        Ordering::Greater,
        Ordering::Greater,
        Ordering::Less,
    ];
    let pieces = split(&polygon, &crossings, &order);
    assert_eq!(
        pieces,
        vec![
            vec![(6, 2), (6, 4), (4, 4), (4, 2)],
            vec![(2, 2), (2, 4), (0, 4), (0, 2)],
            vec![(6, 2), (4, 2), (4, 1), (2, 1), (2, 2), (0, 2), (0, 0), (6, 0)],
        ]
    );
}

#[test]
fn split_rotation_starts_after_turn() {
    // same U shape, crossings met in the order that needs a later start
    let polygon = vec![(6, 4), (4, 4), (4, 1), (2, 1), (2, 4), (0, 4), (0, 0), (6, 0)];
    let crossings = vec![
        None,
        Some((4, 2)),
        None,
        Some((2, 2)),
        None,
        Some((0, 2)),
        None,
        Some((6, 2)),
    ];
    let order = vec![
        Ordering::Greater,
        Ordering::Greater,
        Ordering::Less,
        Ordering::Greater,
    ];
    let pieces = split(&polygon, &crossings, &order);
    assert_eq!(
        pieces,
        vec![
            vec![(6, 2), (6, 4), (4, 4), (4, 2)],
            vec![(2, 2), (2, 4), (0, 4), (0, 2)],
            vec![(6, 2), (4, 2), (4, 1), (2, 1), (2, 2), (0, 2), (0, 0), (6, 0)],
        ]
    );
}

#[test]
fn split_two_crossings_shares_cut_points() {
    let polygon = vec![(0.0, 0.0), (4.0, 0.0), (2.0, 3.0)];
    let crossings = vec![Some((2.0, 0.0)), Some((3.0, 1.5)), None];
    let order = vec![Ordering::Less, Ordering::Greater];
    let pieces = split(&polygon, &crossings, &order);
    assert_eq!(pieces.len(), 2);
    assert_eq!(pieces[0], vec![(2.0, 0.0), (4.0, 0.0), (3.0, 1.5)]);
    assert_eq!(pieces[1], vec![(0.0, 0.0), (2.0, 0.0), (3.0, 1.5), (2.0, 3.0)]);
    assert_eq!(pieces[0].len() + pieces[1].len(), polygon.len() + 4);
}

#[test]
fn split_keeps_every_point() {
    let polygon = vec![(0, 0), (6, 0), (6, 4), (4, 4), (4, 1), (2, 1), (2, 4), (0, 4)];
    let crossings = vec![
        None,
        Some((6, 2)),
        None,
        Some((4, 2)),
        None,
        Some((2, 2)),
        None,
        Some((0, 2)),
    ];
    let order = vec![
        Ordering::Greater,
        Ordering::Greater,
        Ordering::Greater,
        Ordering::Less,
    ];
    let pieces = split(&polygon, &crossings, &order);
    let total: usize = pieces.iter().map(|piece| piece.len()).sum();
    assert_eq!(total, polygon.len() + 2 * 4);
    for vertex in polygon.iter() {
        let count = pieces.iter().flatten().filter(|p| *p == vertex).count();
        assert_eq!(count, 1);
    }
    for crossing in crossings.iter().flatten() {
        let count = pieces.iter().flatten().filter(|p| *p == crossing).count();
        assert_eq!(count, 2);
    }
}
