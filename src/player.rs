//! The mode switches of the player's ship, driven by the control flags of
//! each tick alone.
//!
//! Each mode carries its own timer; the timer types are parameters, as the
//! timers count seconds and are kept by the caller.

use vstd::prelude::*;

verus! {

/// The auxiliary system: off, firing at an interval, or shielding after a
/// delay.
pub enum Aux<T, I> {
    Off,
    Firing { interval: I },
    Shielding { delay: T },
}

/// The main engine: idle, or thrusting with an exhaust interval.
pub enum Engine<I> {
    Idle,
    Thrusting { interval: I },
}

/// The auxiliary mode for this tick, and whether it carries on from the last
/// one (its timer is then advanced by the tick; a fresh one is not).
///
/// Shielding wins over firing; with neither control held the system is off.
/// A mode that was already on keeps its timer, a mode that starts takes the
/// fresh one given.
pub fn next_aux<T, I>(aux: Aux<T, I>, shield: bool, fire: bool, fresh_delay: T, fresh_interval: I) -> (r: (
    Aux<T, I>,
    bool,
))
    ensures
        shield && aux is Shielding ==> r == (aux, true),
        shield && !(aux is Shielding) ==> r == (Aux::<T, I>::Shielding { delay: fresh_delay }, false),
        !shield && fire && aux is Firing ==> r == (aux, true),
        !shield && fire && !(aux is Firing) ==> r == (
            Aux::<T, I>::Firing { interval: fresh_interval },
            false,
        ),
        !shield && !fire ==> r == (Aux::<T, I>::Off, false),
{
    if shield {
        match aux {
            Aux::Shielding { delay } => (Aux::Shielding { delay }, true),
            _ => (Aux::Shielding { delay: fresh_delay }, false),
        }
    } else if fire {
        match aux {
            Aux::Firing { interval } => (Aux::Firing { interval }, true),
            _ => (Aux::Firing { interval: fresh_interval }, false),
        }
    } else {
        (Aux::Off, false)
    }
}

/// The engine mode for this tick: thrusting while the control is held,
/// keeping the running interval if it was already thrusting, else idle.
pub fn next_engine<I>(engine: Engine<I>, thrust: bool, fresh_interval: I) -> (r: Engine<I>)
    ensures
        thrust && engine is Thrusting ==> r == engine,
        thrust && !(engine is Thrusting) ==> r == (Engine::<I>::Thrusting { interval: fresh_interval }),
        !thrust ==> r == Engine::<I>::Idle,
{
    if thrust {
        match engine {
            Engine::Thrusting { interval } => Engine::Thrusting { interval },
            Engine::Idle => Engine::Thrusting { interval: fresh_interval },
        }
    } else {
        Engine::Idle
    }
}

} // verus!
