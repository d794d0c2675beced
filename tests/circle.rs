use asteroids::circle::promote;

#[test]
fn promote_moves_outsider_first() {
    let mut points = vec![10, 11, 12, 13, 14, 15, 16];
    promote(&mut points, 5);
    assert_eq!(points, vec![15, 10, 11, 12, 14, 13, 16]);
}

#[test]
fn promote_fourth_point() {
    let mut points = vec![10, 11, 12, 13, 14];
    promote(&mut points, 3);
    assert_eq!(points, vec![13, 10, 11, 12, 14]);
}
