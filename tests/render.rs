use asteroids::render::{Path, PathEnd, PathList};

#[test]
fn path_list_records_offsets_back_to_back() {
    let mut list: PathList<(f64, f64), f64> = PathList::new();
    let mut hull = vec![(0.0, 0.0), (1.0, 0.0), (1.0, 1.0)];
    let mut line = vec![(5.0, 5.0), (6.0, 6.0)];
    list.push(&mut hull, 1.0, PathEnd::Closed);
    list.push(&mut line, 0.7, PathEnd::Open);
    assert!(hull.is_empty());
    assert!(line.is_empty());
    assert_eq!(list.length(), 2);
    assert_eq!(list.points_length(), 5);
    assert_eq!(
        list.paths(),
        &vec![Path { offset: 0, length: 3 }, Path { offset: 3, length: 2 }]
    );
    assert_eq!(list.alphas(), &vec![1.0, 0.7]);
    assert_eq!(list.ends(), &vec![PathEnd::Closed, PathEnd::Open]);
    assert_eq!(list.points()[3], (5.0, 5.0));
}

#[test]
fn path_list_skips_empty_path() {
    let mut list: PathList<(i32, i32), u8> = PathList::new();
    list.push(&mut vec![], 1, PathEnd::Open);
    assert_eq!(list.length(), 0);
    list.push(&mut vec![(1, 2)], 2, PathEnd::Closed);
    list.push(&mut vec![], 3, PathEnd::Open);
    assert_eq!(list.length(), 1);
    assert_eq!(list.paths(), &vec![Path { offset: 0, length: 1 }]);
    assert_eq!(list.points(), &vec![(1, 2)]);
}
