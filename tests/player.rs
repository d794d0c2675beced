use asteroids::player::{next_aux, next_engine, Aux, Engine};

#[test]
fn shield_starts_with_fresh_delay_and_keeps_running_one() {
    let (aux, kept) = next_aux::<u32, u32>(Aux::Off, true, true, 7, 9);
    assert!(!kept);
    assert!(matches!(aux, Aux::Shielding { delay: 7 }));
    let (aux, kept) = next_aux(aux, true, false, 1, 2);
    assert!(kept);
    assert!(matches!(aux, Aux::Shielding { delay: 7 }));
}

#[test]
fn fire_starts_and_continues_then_stops() {
    let (aux, kept) = next_aux::<u32, u32>(Aux::Shielding { delay: 3 }, false, true, 7, 9);
    assert!(!kept);
    assert!(matches!(aux, Aux::Firing { interval: 9 }));
    let (aux, kept) = next_aux(aux, false, true, 1, 2);
    assert!(kept);
    assert!(matches!(aux, Aux::Firing { interval: 9 }));
    let (aux, kept) = next_aux(aux, false, false, 1, 2);
    assert!(!kept);
    assert!(matches!(aux, Aux::Off));
}

#[test]
fn engine_thrusts_while_held() {
    let engine = next_engine::<u32>(Engine::Idle, true, 4);
    assert!(matches!(engine, Engine::Thrusting { interval: 4 }));
    let engine = next_engine(engine, true, 5);
    assert!(matches!(engine, Engine::Thrusting { interval: 4 }));
    let engine = next_engine(engine, false, 6);
    assert!(matches!(engine, Engine::Idle));
}
