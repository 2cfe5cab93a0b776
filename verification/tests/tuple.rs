use std::rc::Rc;
use klavier_core::channel::Channel;
use klavier_core::duration::{Denominator, Dots, Duration, Numerator};
use klavier_core::note::Note;
use klavier_core::octave::Octave;
use klavier_core::pitch::Pitch;
use klavier_core::sharp_flat::SharpFlat;
use klavier_core::solfa::Solfa;
use klavier_core::trimmer::{RateTrimmer, Trimmer};
use klavier_core::tuple::{numerator_unit, sort_by_start_tick as sort_notes, tuplize, TupleElem};
use klavier_core::velocity::Velocity;

fn note(tick: u32, pitch: Pitch, duration: Duration) -> Rc<Note> {
    Rc::new(Note {
        base_start_tick: tick,
        pitch,
        duration,
        tie: false,
        tied: false,
        base_velocity: Velocity::new(64),
        start_tick_trimmer: Trimmer::ZERO(),
        duration_trimmer: RateTrimmer::ONE(),
        velocity_trimmer: Trimmer::ZERO(),
        channel: Channel::default(),
    })
}

fn group_contains(e: &TupleElem, n: &Rc<Note>) -> bool {
    (0..e.len()).any(|i| e.get(i).unwrap() == n)
}

#[test]
fn sort_by_start_tick() {
    let a3 = Pitch::new(Solfa::A, Octave::Oct3, SharpFlat::Null);
    let note0 = note(0, a3, Duration::new(Numerator::Quarter, Denominator::from_value(2).unwrap(), Dots::ZERO()));
    let note1 = note(0, a3, Duration::new(Numerator::Half, Denominator::from_value(2).unwrap(), Dots::ZERO()));
    let note2 = note(100, a3, Duration::new(Numerator::Quarter, Denominator::from_value(2).unwrap(), Dots::ZERO()));

    let mut notes: Vec<Rc<Note>> = vec![note2.clone(), note1.clone(), note0.clone()];
    let (min_unit, sorted) = sort_notes(&mut notes);

    assert_eq!(min_unit.unwrap(), 64);
    assert_eq!(sorted.len(), 2);

    let g0 = &sorted[0];
    assert_eq!(g0.len(), 2);
    assert!(group_contains(g0, &note0));
    assert!(group_contains(g0, &note1));

    assert_eq!(*sorted[1].get(0).unwrap(), note2);
}

#[test]
fn sort_keeps_order_of_notes_starting_together() {
    let a3 = Pitch::new(Solfa::A, Octave::Oct3, SharpFlat::Null);
    let c4 = Pitch::new(Solfa::C, Octave::Oct4, SharpFlat::Null);
    let q = Duration::new(Numerator::Quarter, Denominator::from_value(2).unwrap(), Dots::ZERO());
    let n0 = note(50, a3, q);
    let n1 = note(10, c4, q);
    let n2 = note(50, c4, q);
    let mut notes = vec![n0.clone(), n1.clone(), n2.clone()];
    let _ = sort_notes(&mut notes);
    assert_eq!(notes, vec![n1, n0, n2]);
}

#[test]
fn unit() {
    assert_eq!(2, numerator_unit(Duration::new(Numerator::N128th, Denominator::from_value(2).unwrap(), Dots::ZERO())));
    assert_eq!(2, numerator_unit(Duration::new(Numerator::N128th, Denominator::from_value(5).unwrap(), Dots::ZERO())));
    assert_eq!(3, numerator_unit(Duration::new(Numerator::N128th, Denominator::from_value(2).unwrap(), Dots::ONE())));
    assert_eq!(6, numerator_unit(Duration::new(Numerator::N64th, Denominator::from_value(2).unwrap(), Dots::ONE())));
}

#[test]
fn tuplize_3_eigth() {
    let a3 = Pitch::new(Solfa::A, Octave::Oct3, SharpFlat::Null);
    let e8 = Duration::new(Numerator::N8th, Denominator::from_value(2).unwrap(), Dots::ZERO());
    let note0 = note(10, a3, e8);
    let note1 = note(20, a3, e8);
    let note2 = note(50, a3, e8);

    let result = tuplize(vec![note0, note1, note2]);
    let e8_3 = Duration::new(Numerator::N8th, Denominator::from_value(3).unwrap(), Dots::ZERO());
    assert_eq!(result[0].base_start_tick, 10);
    assert_eq!(result[0].duration, e8_3);

    assert_eq!(result[1].base_start_tick, 10 + 80);
    assert_eq!(result[1].duration, e8_3);

    assert_eq!(result[2].base_start_tick, 10 + 80 * 2);
    assert_eq!(result[2].duration, e8_3);
}

#[test]
fn tuplize_3_eigth_again() {
    let a3 = Pitch::new(Solfa::A, Octave::Oct3, SharpFlat::Null);
    let e8_3 = Duration::new(Numerator::N8th, Denominator::from_value(3).unwrap(), Dots::ZERO());
    let note0 = note(0, a3, e8_3);
    let note1 = note(80, a3, e8_3);
    let note2 = note(160, a3, e8_3);

    let result = tuplize(vec![note0, note1, note2]);
    assert_eq!(result[0].base_start_tick, 0);
    assert_eq!(result[0].duration, e8_3);

    assert_eq!(result[1].base_start_tick, 80);
    assert_eq!(result[1].duration, e8_3);

    assert_eq!(result[2].base_start_tick, 160);
    assert_eq!(result[2].duration, e8_3);
}

#[test]
fn tuplize_nothing() {
    assert!(tuplize(vec![]).is_empty());
}

#[test]
fn tuplize_three_quarters() {
    let a3 = Pitch::new(Solfa::A, Octave::Oct3, SharpFlat::Null);
    let q = Duration::new(Numerator::Quarter, Denominator::from_value(2).unwrap(), Dots::ZERO());
    let result = tuplize(vec![note(200, a3, q), note(0, a3, q), note(100, a3, q)]);
    assert_eq!(result.len(), 3);
    assert_eq!(result[0].base_start_tick, 0);
    assert_eq!(result[1].base_start_tick, 160);
    assert_eq!(result[2].base_start_tick, 320);
    assert_eq!(result[2].duration.denominator.value(), 3);
}

#[test]
fn tuplize_chord_counts_each_note() {
    // The notes of a chord each advance the position by their own units.
    let a3 = Pitch::new(Solfa::A, Octave::Oct3, SharpFlat::Null);
    let c4 = Pitch::new(Solfa::C, Octave::Oct4, SharpFlat::Null);
    let q = Duration::new(Numerator::Quarter, Denominator::from_value(2).unwrap(), Dots::ZERO());
    let result = tuplize(vec![note(240, a3, q), note(0, a3, q), note(0, c4, q)]);
    assert_eq!(result.len(), 3);
    assert_eq!(result[0].base_start_tick, 0);
    assert_eq!(result[0].pitch, a3);
    assert_eq!(result[1].base_start_tick, 240);
    assert_eq!(result[1].pitch, c4);
    assert_eq!(result[2].base_start_tick, 480);
    assert_eq!(result[2].duration.denominator.value(), 2);
}
