use asteroids::collision::is_collision;
use std::cmp::Ordering;

#[test]
fn facing_bodies_collide() {
    assert!(is_collision(true, true, Ordering::Less));
    assert!(is_collision(true, true, Ordering::Equal));
}

#[test]
fn separating_bodies_do_not_collide() {
    assert!(!is_collision(false, false, Ordering::Greater));
    assert!(!is_collision(false, false, Ordering::Less));
}

#[test]
fn faster_facing_body_catches_up() {
    assert!(is_collision(true, false, Ordering::Greater));
    assert!(!is_collision(true, false, Ordering::Less));
    assert!(!is_collision(true, false, Ordering::Equal));
    assert!(is_collision(false, true, Ordering::Less));
    assert!(!is_collision(false, true, Ordering::Greater));
}
