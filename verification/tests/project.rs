use std::rc::Rc;
use klavier_core::bar::{Bar, RepeatSet};
use klavier_core::channel::Channel;
use klavier_core::ctrl_chg::CtrlChg;
use klavier_core::duration::{Denominator, Dots, Duration, Numerator};
use klavier_core::grid::Grid;
use klavier_core::key::Key;
use klavier_core::location::Location;
use klavier_core::models::{ModelChanges, Models};
use klavier_core::note::Note;
use klavier_core::octave::Octave;
use klavier_core::percent::PercentU16;
use klavier_core::pitch::Pitch;
use klavier_core::project::{
    tempo_at, ExportedProject, LocationError, ModelChangeMetadata, ProjectCmd, ProjectCmdErr, ProjectImpl,
    DEFAULT_TEMPO_VALUE,
};
use klavier_core::rhythm::Rhythm;
use klavier_core::sharp_flat::SharpFlat;
use klavier_core::solfa::Solfa;
use klavier_core::tempo::{Tempo, TempoValue};
use klavier_core::trimmer::{RateTrimmer, Trimmer};
use klavier_core::velocity::Velocity;
use klavier_helper::store::{Store, StoreEvent};

fn note_of(tick: u32, pitch: Pitch, duration: Duration, velocity: u8, rate: RateTrimmer) -> Note {
    Note {
        base_start_tick: tick,
        pitch,
        duration,
        tie: false,
        tied: false,
        base_velocity: Velocity::new(velocity),
        start_tick_trimmer: Trimmer::ZERO(),
        duration_trimmer: rate,
        velocity_trimmer: Trimmer::ZERO(),
        channel: Channel::default(),
    }
}

fn eighth(tick: u32, solfa: Solfa, octave: Octave) -> Note {
    note_of(
        tick,
        Pitch::new(solfa, octave, SharpFlat::Null),
        Duration::new(Numerator::N8th, Denominator::from_value(2).unwrap(), Dots::ZERO()),
        64,
        RateTrimmer::ONE(),
    )
}

fn permille(v: u16) -> PercentU16 {
    PercentU16::from_value(v)
}

fn rate(values: [u16; 4], sum: u16) -> RateTrimmer {
    RateTrimmer::from_values_and_sum([permille(values[0]), permille(values[1]), permille(values[2]), permille(values[3])], permille(sum))
}

fn plain_bar(tick: u32) -> Bar {
    Bar::new(tick, None, None, RepeatSet::EMPTY())
}

fn models(notes: Vec<Note>, tempos: Vec<Tempo>) -> Models {
    Models { notes, bars: vec![], tempos, dumpers: vec![], softs: vec![] }
}

#[test]
fn tempo() {
    let mut proj = ProjectImpl::default();
    assert_eq!(tempo_at(0, proj.tempo_repo()), TempoValue::new(DEFAULT_TEMPO_VALUE));
    let store_empty: Store<u32, Tempo, ModelChangeMetadata> = Store::new(false);
    assert_eq!(tempo_at(0, &store_empty), TempoValue::new(DEFAULT_TEMPO_VALUE));

    proj.add_tempo(Tempo::new(10, 100), false);
    assert_eq!(proj.tempo_at(0), TempoValue::new(DEFAULT_TEMPO_VALUE));
    assert_eq!(proj.tempo_at(10), TempoValue::new(100));
    assert_eq!(proj.tempo_at(11), TempoValue::new(100));

    proj.add_tempo(Tempo::new(20, 200), false);
    assert_eq!(proj.tempo_at(0), TempoValue::new(DEFAULT_TEMPO_VALUE));
    assert_eq!(proj.tempo_at(10), TempoValue::new(100));
    assert_eq!(proj.tempo_at(11), TempoValue::new(100));
    assert_eq!(proj.tempo_at(19), TempoValue::new(100));
    assert_eq!(proj.tempo_at(20), TempoValue::new(200));
    assert_eq!(proj.tempo_at(100), TempoValue::new(200));
    assert_eq!(tempo_at(100, proj.tempo_repo()), TempoValue::new(200));
}

#[test]
fn undo_note_addition() {
    let mut proj = ProjectImpl::default();
    let note = note_of(
        100,
        Pitch::new(Solfa::C, Octave::Oct4, SharpFlat::Null),
        Duration::new(Numerator::Quarter, Denominator::from_value(2).unwrap(), Dots::ZERO()),
        64,
        RateTrimmer::ONE(),
    );
    let cmd = proj.add_note(note, false);
    assert_eq!(proj.note_repo().len(), 1);
    cmd.undo(&mut proj);
    assert_eq!(proj.note_repo().len(), 0);
}

#[test]
fn undo_bar_addition() {
    let mut proj = ProjectImpl::default();
    let cmd = proj.add_bar(plain_bar(100), false);
    assert_eq!(proj.bar_repo().len(), 1);
    cmd.undo(&mut proj);
    assert_eq!(proj.bar_repo().len(), 0);
}

#[test]
fn location_to_tick() {
    let mut proj = ProjectImpl::default();
    assert_eq!(proj.location_to_tick(Location::new(0, 0)).unwrap(), 0);
    assert_eq!(proj.location_to_tick(Location::new(0, 1)).unwrap(), 1);
    assert_eq!(proj.location_to_tick(Location::new(0, u32::MAX as usize)).unwrap(), u32::MAX);
    assert_eq!(proj.location_to_tick(Location::new(0, u32::MAX as usize + 1)), Err(LocationError::Overflow));
    assert_eq!(proj.location_to_tick(Location::new(1, 1)).unwrap(), proj.rhythm().tick_len() + 1);

    proj.add_bar(plain_bar(100), false);
    assert_eq!(proj.location_to_tick(Location::new(0, 0)).unwrap(), 0);
    assert_eq!(proj.location_to_tick(Location::new(0, 1)).unwrap(), 1);
    assert_eq!(proj.location_to_tick(Location::new(1, 1)).unwrap(), 101);
    assert_eq!(proj.location_to_tick(Location::new(1, (u32::MAX as usize) - 100)).unwrap(), u32::MAX);
    assert_eq!(proj.location_to_tick(Location::new(1, (u32::MAX as usize) - 99)), Err(LocationError::Overflow));
    assert_eq!(proj.location_to_tick(Location::new(2, 1)).unwrap(), 100 + proj.rhythm().tick_len() + 1);

    proj.add_bar(plain_bar(1000), false);
    assert_eq!(proj.location_to_tick(Location::new(0, 0)).unwrap(), 0);
    assert_eq!(proj.location_to_tick(Location::new(0, 1)).unwrap(), 1);
    assert_eq!(proj.location_to_tick(Location::new(1, 1)).unwrap(), 101);
    assert_eq!(proj.location_to_tick(Location::new(2, 0)).unwrap(), 1000);

    proj.add_bar(Bar::new(2000, Some(Rhythm::new(2, 4)), None, RepeatSet::EMPTY()), false);
    proj.add_bar(plain_bar(3000), false);
    assert_eq!(proj.location_to_tick(Location::new(4, 1)).unwrap(), 3001);
    assert_eq!(proj.location_to_tick(Location::new(5, 1)).unwrap(), 3000 + 480 + 1);
}

#[test]
fn tick_to_location() {
    let mut proj = ProjectImpl::default();
    assert_eq!(proj.tick_to_location(0), Location::new(0, 0));
    assert_eq!(proj.tick_to_location(100), Location::new(0, 100));
    assert_eq!(proj.tick_to_location(u32::MAX), Location::new(0, u32::MAX as usize));

    proj.add_bar(plain_bar(100), false);
    assert_eq!(proj.tick_to_location(0), Location::new(0, 0));
    assert_eq!(proj.tick_to_location(99), Location::new(0, 99));
    assert_eq!(proj.tick_to_location(100), Location::new(1, 0));
    assert_eq!(proj.tick_to_location(u32::MAX), Location::new(1, (u32::MAX - 100) as usize));

    proj.add_bar(plain_bar(1000), false);
    assert_eq!(proj.tick_to_location(0), Location::new(0, 0));
    assert_eq!(proj.tick_to_location(99), Location::new(0, 99));
    assert_eq!(proj.tick_to_location(999), Location::new(1, 899));
    assert_eq!(proj.tick_to_location(1000), Location::new(2, 0));
    assert_eq!(proj.tick_to_location(u32::MAX), Location::new(2, (u32::MAX - 1000) as usize));
}

#[test]
fn rhythm_at() {
    let mut proj = ProjectImpl::default();
    proj.set_rhythm(Rhythm::new(6, 8));
    assert_eq!(proj.last_bar(), None);
    assert_eq!(proj.rhythm_at(500), Rhythm::new(6, 8));
    assert_eq!(proj.rhythm_at(0), Rhythm::new(6, 8));

    let bar0 = plain_bar(100);
    proj.add_bar(bar0, false);
    assert_eq!(proj.last_bar().map(|(_, bar)| bar), Some(bar0));
    assert_eq!(proj.rhythm_at(0), Rhythm::new(6, 8));
    assert_eq!(proj.rhythm_at(99), Rhythm::new(6, 8));
    assert_eq!(proj.rhythm_at(100), Rhythm::new(6, 8));
    assert_eq!(proj.rhythm_at(101), Rhythm::new(6, 8));

    let bar1 = Bar::new(200, Some(Rhythm::new(3, 4)), None, RepeatSet::EMPTY());
    proj.add_bar(bar1, false);
    assert_eq!(proj.last_bar().map(|(_, bar)| bar), Some(bar1));

    let bar2 = plain_bar(300);
    proj.add_bar(bar2, false);
    assert_eq!(proj.last_bar().map(|(_, bar)| bar), Some(bar2));

    let bar3 = Bar::new(400, Some(Rhythm::new(4, 4)), None, RepeatSet::EMPTY());
    proj.add_bar(bar3, false);
    assert_eq!(proj.last_bar().map(|(_, bar)| bar), Some(bar3));

    assert_eq!(proj.rhythm_at(0), Rhythm::new(6, 8));
    assert_eq!(proj.rhythm_at(99), Rhythm::new(6, 8));
    assert_eq!(proj.rhythm_at(100), Rhythm::new(6, 8));
    assert_eq!(proj.rhythm_at(101), Rhythm::new(6, 8));
    assert_eq!(proj.rhythm_at(199), Rhythm::new(6, 8));
    assert_eq!(proj.rhythm_at(200), Rhythm::new(3, 4));
    assert_eq!(proj.rhythm_at(201), Rhythm::new(3, 4));
    assert_eq!(proj.rhythm_at(299), Rhythm::new(3, 4));
    assert_eq!(proj.rhythm_at(300), Rhythm::new(3, 4));
    assert_eq!(proj.rhythm_at(301), Rhythm::new(3, 4));
    assert_eq!(proj.rhythm_at(399), Rhythm::new(3, 4));
    assert_eq!(proj.rhythm_at(400), Rhythm::new(4, 4));
    assert_eq!(proj.rhythm_at(401), Rhythm::new(4, 4));
}

#[test]
fn note_max_tick_loc() {
    let mut proj = ProjectImpl::default();
    let pitch = Pitch::new(Solfa::C, Octave::Oct0, SharpFlat::Null);
    assert_eq!(proj.note_max_end_tick(), None);

    let note0 = note_of(
        100,
        pitch,
        Duration::new(Numerator::Quarter, Denominator::from_value(2).unwrap(), Dots::ONE()),
        10,
        rate([1000, 1000, 1000, 1000], 1000),
    );
    let end_tick0 = note0.base_start_tick + note0.tick_len();
    proj.add_note(note0, false);
    assert_eq!(proj.note_max_end_tick(), Some(end_tick0));

    let note1 = note_of(
        100,
        pitch,
        Duration::new(Numerator::Whole, Denominator::from_value(2).unwrap(), Dots::ONE()),
        10,
        rate([1000, 1000, 1000, 1000], 1000),
    );
    proj.add_note(note1.clone(), false);
    assert_eq!(proj.note_max_end_tick(), Some(note1.base_start_tick + note1.tick_len()));

    proj.add_note(
        note_of(
            200,
            pitch,
            Duration::new(Numerator::N8th, Denominator::from_value(2).unwrap(), Dots::ZERO()),
            10,
            rate([1000, 1000, 1000, 2000], 2000),
        ),
        false,
    );
    assert_eq!(proj.note_max_end_tick(), Some(note1.base_start_tick + note1.tick_len()));
}

#[test]
fn replenish_bars() {
    let mut proj = ProjectImpl::default();
    let pitch = Pitch::new(Solfa::C, Octave::Oct0, SharpFlat::Null);
    assert_eq!(proj.bar_repo().len(), 0);
    proj.add_note(
        note_of(100, pitch, Duration::new(Numerator::Quarter, Denominator::from_value(2).unwrap(), Dots::ONE()), 10, RateTrimmer::ONE()),
        false,
    );
    assert_eq!(proj.bar_repo().len(), 1);
    assert_eq!(proj.bar_repo().peek_last().unwrap().0, 960);

    proj.add_note(
        note_of(0, pitch, Duration::new(Numerator::Whole, Denominator::from_value(2).unwrap(), Dots::ZERO()), 10, RateTrimmer::ONE()),
        false,
    );
    assert_eq!(proj.bar_repo().len(), 1);
    assert_eq!(proj.bar_repo().peek_last().unwrap().0, 960);

    proj.add_note(
        note_of(960, pitch, Duration::new(Numerator::Whole, Denominator::from_value(2).unwrap(), Dots::ONE()), 10, RateTrimmer::ONE()),
        false,
    );
    assert_eq!(proj.bar_repo().len(), 3);
    assert_eq!(proj.bar_repo().peek_last().unwrap().0, 960 * 3);

    proj.add_tempo(Tempo::new(960 * 3, 200), false);
    assert_eq!(proj.bar_repo().len(), 3);
    assert_eq!(proj.bar_repo().peek_last().unwrap().0, 960 * 3);

    proj.add_tempo(Tempo::new(960 * 3 + 1, 200), false);
    assert_eq!(proj.bar_repo().len(), 4);
    assert_eq!(proj.bar_repo().peek_last().unwrap().0, 960 * 4);

    proj.add_dumper(CtrlChg::new(960 * 4, Velocity::new(20), Channel::default()), false);
    assert_eq!(proj.bar_repo().len(), 4);
    assert_eq!(proj.bar_repo().peek_last().unwrap().0, 960 * 4);

    proj.add_dumper(CtrlChg::new(960 * 4 + 1, Velocity::new(20), Channel::default()), false);
    assert_eq!(proj.bar_repo().len(), 5);
    assert_eq!(proj.bar_repo().peek_last().unwrap().0, 960 * 5);

    proj.add_soft(CtrlChg::new(960 * 5, Velocity::new(20), Channel::default()), false);
    assert_eq!(proj.bar_repo().len(), 5);
    assert_eq!(proj.bar_repo().peek_last().unwrap().0, 960 * 5);

    proj.add_dumper(CtrlChg::new(960 * 5 + 1, Velocity::new(20), Channel::default()), false);
    assert_eq!(proj.bar_repo().len(), 6);
    assert_eq!(proj.bar_repo().peek_last().unwrap().0, 960 * 6);
}

#[test]
fn tuplize() {
    let mut proj = ProjectImpl::default();
    let note0 = eighth(100, Solfa::C, Octave::Oct4);
    proj.add_note(note0.clone(), false);
    let note1 = eighth(120, Solfa::C, Octave::Oct4);
    proj.add_note(note1.clone(), false);
    let note2 = eighth(150, Solfa::C, Octave::Oct4);
    proj.add_note(note2.clone(), false);
    assert_eq!(proj.note_repo().len(), 3);

    let cmd = proj.tuplize(vec![Rc::new(note0), Rc::new(note1), Rc::new(note2)]).unwrap();
    assert_eq!(proj.note_repo().len(), 3);
    let triplet = Duration::new(Numerator::N8th, Denominator::from_value(3).unwrap(), Dots::ZERO());
    let mut z = proj.note_repo().iter();
    let (tick, note) = z.next().unwrap();
    assert_eq!(*tick, 100);
    assert_eq!(note.duration, triplet);
    let (tick, note) = z.next().unwrap();
    assert_eq!(*tick, 100 + 80);
    assert_eq!(note.duration, triplet);
    let (tick, note) = z.next().unwrap();
    assert_eq!(*tick, 100 + 80 * 2);
    assert_eq!(note.duration, triplet);

    cmd.undo(&mut proj);
    assert_eq!(proj.note_repo().len(), 3);
    let plain = Duration::new(Numerator::N8th, Denominator::from_value(2).unwrap(), Dots::ZERO());
    let mut z = proj.note_repo().iter();
    let (tick, note) = z.next().unwrap();
    assert_eq!(*tick, 100);
    assert_eq!(note.duration, plain);
    let (tick, note) = z.next().unwrap();
    assert_eq!(*tick, 120);
    assert_eq!(note.duration, plain);
    let (tick, note) = z.next().unwrap();
    assert_eq!(*tick, 150);
    assert_eq!(note.duration, plain);
}

#[test]
fn can_undo_set_rhythm() {
    let mut proj = ProjectImpl::default();
    let c1 = proj.set_rhythm(Rhythm::new(12, 8));
    assert_eq!(proj.rhythm(), Rhythm::new(12, 8));
    let c2 = proj.set_rhythm(Rhythm::new(12, 4));
    assert_eq!(proj.rhythm(), Rhythm::new(12, 4));

    c2.undo(&mut proj);
    assert_eq!(proj.rhythm(), Rhythm::new(12, 8));
    c1.undo(&mut proj);
    assert_eq!(proj.rhythm(), Rhythm::default());
    c1.redo(&mut proj);
    assert_eq!(proj.rhythm(), Rhythm::new(12, 8));

    let c3 = proj.set_rhythm(Rhythm::new(16, 8));
    assert_eq!(proj.rhythm(), Rhythm::new(16, 8));
    c3.undo(&mut proj);
    assert_eq!(proj.rhythm(), Rhythm::new(12, 8));
}

#[test]
fn can_undo_set_key() {
    let mut proj = ProjectImpl::default();
    proj.set_key(Key::FLAT_1());
    let c = proj.set_key(Key::FLAT_2());
    assert_eq!(proj.key(), Key::FLAT_2());
    c.undo(&mut proj);
    assert_eq!(proj.key(), Key::FLAT_1());
    c.redo(&mut proj);
    assert_eq!(proj.key(), Key::FLAT_2());
}

#[test]
fn can_undo_set_grid() {
    let mut proj = ProjectImpl::default();
    proj.set_grid(Grid::from_u32(100).unwrap());
    let c = proj.set_grid(Grid::from_u32(200).unwrap());
    assert_eq!(proj.grid().as_u32(), 200);
    c.undo(&mut proj);
    assert_eq!(proj.grid().as_u32(), 100);
    c.redo(&mut proj);
    assert_eq!(proj.grid().as_u32(), 200);
}

#[test]
fn can_undo_add_note() {
    let mut proj = ProjectImpl::default();
    let note0 = eighth(100, Solfa::C, Octave::Oct4);
    let c = proj.add_note(note0.clone(), false);
    assert_eq!(proj.note_repo().len(), 1);
    assert_eq!(proj.bar_repo().len(), 1);

    c.undo(&mut proj);
    assert_eq!(proj.note_repo().len(), 0);
    assert_eq!(proj.bar_repo().len(), 0);

    c.redo(&mut proj);
    assert_eq!(proj.note_repo().len(), 1);
    assert_eq!(proj.note_repo().get(100u32), &vec![Rc::new(note0.clone())]);
    assert_eq!(proj.bar_repo().len(), 1);
}

#[test]
fn can_undo_add_bar() {
    let mut proj = ProjectImpl::default();
    let bar0 = Bar::new(1000, Some(Rhythm::new(3, 4)), None, RepeatSet::EMPTY());
    let c = proj.add_bar(bar0, false);
    assert_eq!(proj.bar_repo().len(), 1);
    c.undo(&mut proj);
    assert_eq!(proj.bar_repo().len(), 0);
    c.redo(&mut proj);
    assert_eq!(proj.bar_repo().len(), 1);
    assert_eq!(proj.bar_repo()[0], (1000u32, bar0));
}

#[test]
fn can_undo_add_tempo() {
    let mut proj = ProjectImpl::default();
    let tempo0 = Tempo::new(200, 200);
    let c = proj.add_tempo(tempo0, false);
    assert_eq!(proj.tempo_repo().len(), 1);
    assert_eq!(proj.bar_repo().len(), 1);
    c.undo(&mut proj);
    assert_eq!(proj.tempo_repo().len(), 0);
    assert_eq!(proj.bar_repo().len(), 0);
    c.redo(&mut proj);
    assert_eq!(proj.tempo_repo().len(), 1);
    assert_eq!(proj.bar_repo().len(), 1);
    assert_eq!(proj.tempo_repo()[0], (200u32, tempo0));
}

#[test]
fn can_undo_add_dumper() {
    let mut proj = ProjectImpl::default();
    let dumper = CtrlChg::new(200, Velocity::new(20), Channel::default());
    let c = proj.add_dumper(dumper, false);
    assert_eq!(proj.dumper_repo().len(), 1);
    assert_eq!(proj.bar_repo().len(), 1);
    c.undo(&mut proj);
    assert_eq!(proj.dumper_repo().len(), 0);
    assert_eq!(proj.bar_repo().len(), 0);
    c.redo(&mut proj);
    assert_eq!(proj.dumper_repo().len(), 1);
    assert_eq!(proj.bar_repo().len(), 1);
    assert_eq!(proj.dumper_repo()[0], (200u32, dumper));
}

#[test]
fn can_undo_add_soft() {
    let mut proj = ProjectImpl::default();
    let soft = CtrlChg::new(200, Velocity::new(20), Channel::default());
    let c = proj.add_soft(soft, false);
    assert_eq!(proj.soft_repo().len(), 1);
    assert_eq!(proj.bar_repo().len(), 1);
    c.undo(&mut proj);
    assert_eq!(proj.soft_repo().len(), 0);
    assert_eq!(proj.bar_repo().len(), 0);
    c.redo(&mut proj);
    assert_eq!(proj.soft_repo().len(), 1);
    assert_eq!(proj.bar_repo().len(), 1);
    assert_eq!(proj.soft_repo()[0], (200u32, soft));
}

#[test]
fn can_undo_tuplize() {
    let mut proj = ProjectImpl::default();
    assert_eq!(proj.tuplize(vec![]), Err(ProjectCmdErr::NoOp));
    assert_eq!(proj.soft_repo().len(), 0);
    assert_eq!(proj.bar_repo().len(), 0);

    let note0 = eighth(100, Solfa::C, Octave::Oct4);
    let add0 = proj.add_note(note0.clone(), false);

    assert_eq!(proj.tuplize(vec![Rc::new(note0.clone())]), Err(ProjectCmdErr::NoOp));
    assert_eq!(proj.note_repo().len(), 1);
    assert_eq!(proj.bar_repo().len(), 1);
    assert_eq!(proj.note_repo().get(100u32), &vec![Rc::new(note0.clone())]);

    add0.undo(&mut proj);
    assert_eq!(proj.note_repo().len(), 0);
    assert_eq!(proj.bar_repo().len(), 0);

    let note1 = eighth(110, Solfa::D, Octave::Oct4);
    let note2 = eighth(120, Solfa::E, Octave::Oct4);
    proj.add_note(note0.clone(), false);
    proj.add_note(note1.clone(), false);
    proj.add_note(note2.clone(), false);

    let c = proj.tuplize(vec![Rc::new(note0.clone()), Rc::new(note1.clone()), Rc::new(note2.clone())]).unwrap();
    assert_eq!(proj.note_repo().len(), 3);
    assert_eq!(proj.bar_repo().len(), 1);

    c.undo(&mut proj);
    assert_eq!(proj.note_repo().len(), 3);
    assert_eq!(proj.bar_repo().len(), 1);
    assert_eq!(proj.note_repo().get(100u32)[0].pitch.solfa(), Solfa::C);
    assert_eq!(proj.note_repo().get(110u32)[0].pitch.solfa(), Solfa::D);
    assert_eq!(proj.note_repo().get(120u32)[0].pitch.solfa(), Solfa::E);

    c.redo(&mut proj);
    assert_eq!(proj.note_repo().len(), 3);
    assert_eq!(proj.bar_repo().len(), 1);
    assert_eq!(proj.note_repo().get(100u32)[0].pitch.solfa(), Solfa::C);
    assert_eq!(proj.note_repo().get(180u32)[0].pitch.solfa(), Solfa::D);
    assert_eq!(proj.note_repo().get(260u32)[0].pitch.solfa(), Solfa::E);
}

#[test]
fn can_undo_bulk_remove() {
    let mut proj = ProjectImpl::default();
    let note0 = eighth(100, Solfa::C, Octave::Oct4);
    let tempo0 = Tempo::new(200, 200);
    proj.bulk_add(models(vec![note0.clone()], vec![tempo0]), ModelChangeMetadata::new());
    assert_eq!(proj.note_repo().len(), 1);
    assert_eq!(proj.bar_repo().len(), 1);
    assert_eq!(proj.tempo_repo().len(), 1);

    let c = proj.bulk_remove(models(vec![note0.clone()], vec![tempo0]), ModelChangeMetadata::new());
    assert_eq!(proj.note_repo().len(), 0);
    assert_eq!(proj.bar_repo().len(), 1);
    assert_eq!(proj.tempo_repo().len(), 0);

    c.undo(&mut proj);
    assert_eq!(proj.note_repo().len(), 1);
    assert_eq!(proj.bar_repo().len(), 1);
    assert_eq!(proj.tempo_repo().len(), 1);
}

#[test]
fn can_undo_bulk_add() {
    let mut proj = ProjectImpl::default();
    let note0 = eighth(100, Solfa::C, Octave::Oct4);
    let tempo0 = Tempo::new(200, 200);
    let c = proj.bulk_add(models(vec![note0.clone()], vec![tempo0]), ModelChangeMetadata::new());
    assert_eq!(proj.note_repo().len(), 1);
    assert_eq!(proj.bar_repo().len(), 1);
    assert_eq!(proj.tempo_repo().len(), 1);

    c.undo(&mut proj);
    assert_eq!(proj.note_repo().len(), 0);
    assert_eq!(proj.bar_repo().len(), 0);
    assert_eq!(proj.tempo_repo().len(), 0);
}

#[test]
fn can_undo_change() {
    let mut proj = ProjectImpl::default();
    let note00 = eighth(100, Solfa::C, Octave::Oct4);
    let note01 = eighth(101, Solfa::C, Octave::Oct3);
    let tempo0 = Tempo::new(200, 200);
    proj.bulk_add(models(vec![note00.clone(), note01.clone()], vec![tempo0]), ModelChangeMetadata::new());
    assert_eq!(proj.note_repo().len(), 2);
    assert_eq!(proj.bar_repo().len(), 1);
    assert_eq!(proj.tempo_repo().len(), 1);

    let note10 = note00.with_duration_numerator(Numerator::Half);
    let note11 = note01.with_duration_numerator(Numerator::Half);
    let change = ModelChanges {
        notes: vec![(note00.clone(), note10.clone()), (note01.clone(), note11.clone())],
        bars: vec![],
        tempos: vec![],
        dumpers: vec![],
        softs: vec![],
    };
    let c = proj.change(change, ModelChangeMetadata::new());
    assert_eq!(proj.note_repo().len(), 2);
    let mut z = proj.note_repo().iter();
    assert_eq!(z.next(), Some((&note10.start_tick(), &Rc::new(note10.clone()))));
    assert_eq!(z.next(), Some((&note11.start_tick(), &Rc::new(note11.clone()))));
    assert_eq!(z.next(), None);
    let mut z = proj.tempo_repo().iter();
    assert_eq!(z.next(), Some(&(tempo0.start_tick, tempo0)));
    assert_eq!(z.next(), None);

    c.undo(&mut proj);
    assert_eq!(proj.note_repo().len(), 2);
    let mut z = proj.note_repo().iter();
    assert_eq!(z.next(), Some((&note00.start_tick(), &Rc::new(note00.clone()))));
    assert_eq!(z.next(), Some((&note01.start_tick(), &Rc::new(note01.clone()))));
    assert_eq!(z.next(), None);
    let mut z = proj.tempo_repo().iter();
    assert_eq!(z.next(), Some(&(tempo0.start_tick, tempo0)));
    assert_eq!(z.next(), None);
}

#[test]
fn add_bar_command_holds_the_replaced_bar() {
    let mut proj = ProjectImpl::default();
    let first = plain_bar(480);
    proj.add_bar(first, false);
    let second = Bar::new(480, Some(Rhythm::new(3, 4)), None, RepeatSet::EMPTY());
    let cmd = proj.add_bar(second, true);
    match &cmd {
        ProjectCmd::ModelChanged { added, removed, metadata } => {
            assert_eq!(added.bars, vec![second]);
            assert_eq!(removed.bars, vec![first]);
            assert_eq!(metadata.need_select, Some(true));
        }
        _ => panic!("a change of the models was expected"),
    }
    cmd.undo(&mut proj);
    assert_eq!(proj.bar_repo()[0], (480u32, first));
}

#[test]
fn replenished_bars_follow_the_time_signature_of_the_last_bar() {
    let mut proj = ProjectImpl::default();
    proj.add_bar(Bar::new(0, Some(Rhythm::new(3, 4)), None, RepeatSet::EMPTY()), false);
    let cmd = proj.add_tempo(Tempo::new(1500, 90), false);
    match &cmd {
        ProjectCmd::ModelChanged { added, removed, .. } => {
            let ticks: Vec<u32> = added.bars.iter().map(|b| b.start_tick).collect();
            assert_eq!(ticks, vec![720, 1440, 2160]);
            assert_eq!(added.tempos, vec![Tempo::new(1500, 90)]);
            assert!(removed.tempos.is_empty());
        }
        _ => panic!("a change of the models was expected"),
    }
    assert_eq!(proj.bar_repo().len(), 4);
}

#[test]
fn exported_project_round_trip() {
    let mut proj = ProjectImpl::default();
    proj.set_key(Key::FLAT_2());
    proj.set_rhythm(Rhythm::new(3, 4));
    let note0 = eighth(100, Solfa::C, Octave::Oct4);
    proj.add_note(note0.clone(), false);
    proj.add_tempo(Tempo::new(50, 90), false);

    let exported: ExportedProject = proj.to_exported();
    assert_eq!(exported.key, Key::FLAT_2());
    assert_eq!(exported.rhythm, Rhythm::new(3, 4));
    assert_eq!(exported.models.notes, vec![note0.clone()]);
    assert_eq!(exported.models.tempos, vec![Tempo::new(50, 90)]);
    assert_eq!(exported.models.bars.len(), 1);

    let back = ProjectImpl::from_exported(exported.clone());
    assert_eq!(back.key(), Key::FLAT_2());
    assert_eq!(back.rhythm(), Rhythm::new(3, 4));
    assert_eq!(back.note_repo().len(), 1);
    assert_eq!(back.bar_repo().len(), 1);
    assert_eq!(back.tempo_at(60), TempoValue::new(90));
    assert_eq!(back.to_exported(), exported);
}

#[test]
fn clearing_events_keeps_the_items() {
    let mut proj = ProjectImpl::default();
    proj.add_note(eighth(100, Solfa::C, Octave::Oct4), false);
    proj.add_tempo(Tempo::new(200, 100), false);
    assert!(!proj.note_repo().events().is_empty());
    assert!(!proj.bar_repo().events().is_empty());
    proj.clear_model_events();
    assert_eq!(proj.note_repo().len(), 1);
    assert_eq!(proj.bar_repo().len(), 1);
    assert!(proj.note_repo().events().is_empty());
    assert!(proj.bar_repo().events().is_empty());
    assert!(proj.tempo_repo().events().is_empty());
    assert!(proj.dumper_repo().events().is_empty());
    assert!(proj.soft_repo().events().is_empty());
}

#[test]
fn exported_notes_come_by_tick_then_in_order_added() {
    let mut proj = ProjectImpl::default();
    let late = eighth(300, Solfa::E, Octave::Oct4);
    let first = eighth(100, Solfa::C, Octave::Oct4);
    let second = eighth(100, Solfa::G, Octave::Oct4);
    proj.add_note(late.clone(), false);
    proj.add_note(first.clone(), false);
    proj.add_note(second.clone(), false);
    let exported = proj.to_exported();
    assert_eq!(exported.models.notes, vec![first, second, late]);
}

#[test]
fn undo_bulk_add_brings_back_the_replaced_tempo() {
    let mut proj = ProjectImpl::default();
    proj.add_tempo(Tempo::new(200, 100), false);
    let before = proj.to_exported();
    let c = proj.bulk_add(models(vec![eighth(50, Solfa::D, Octave::Oct4)], vec![Tempo::new(200, 150)]), ModelChangeMetadata::new());
    assert_eq!(proj.tempo_at(200), TempoValue::new(150));
    let after = proj.to_exported();
    c.undo(&mut proj);
    assert_eq!(proj.to_exported(), before);
    c.redo(&mut proj);
    assert_eq!(proj.to_exported(), after);
}

#[test]
fn undo_bulk_remove_puts_the_items_back() {
    let mut proj = ProjectImpl::default();
    let a = eighth(100, Solfa::C, Octave::Oct4);
    let b = eighth(100, Solfa::E, Octave::Oct4);
    proj.bulk_add(models(vec![a.clone(), b.clone()], vec![Tempo::new(300, 90)]), ModelChangeMetadata::new());
    let before = proj.to_exported();
    let c = proj.bulk_remove(models(vec![a.clone()], vec![Tempo::new(300, 90)]), ModelChangeMetadata::new());
    assert_eq!(proj.note_repo().len(), 1);
    assert_eq!(proj.tempo_repo().len(), 0);
    let after = proj.to_exported();
    c.undo(&mut proj);
    let back = proj.to_exported();
    assert_eq!(back.models.tempos, before.models.tempos);
    assert_eq!(back.models.bars, before.models.bars);
    // The note put back comes after the one that stayed under its tick.
    assert_eq!(back.models.notes, vec![b, a]);
    c.redo(&mut proj);
    assert_eq!(proj.to_exported(), after);
}

#[test]
fn undo_change_brings_back_the_displaced_tempo() {
    let mut proj = ProjectImpl::default();
    let t0 = Tempo::new(100, 100);
    let t1 = Tempo::new(200, 130);
    proj.bulk_add(models(vec![], vec![t0, t1]), ModelChangeMetadata::new());
    let before = proj.to_exported();
    let change = ModelChanges {
        notes: vec![],
        bars: vec![],
        tempos: vec![(t0, Tempo::new(200, 160))],
        dumpers: vec![],
        softs: vec![],
    };
    let c = proj.change(change, ModelChangeMetadata::new());
    assert_eq!(proj.to_exported().models.tempos, vec![Tempo::new(200, 160)]);
    let after = proj.to_exported();
    c.undo(&mut proj);
    assert_eq!(proj.to_exported(), before);
    c.redo(&mut proj);
    assert_eq!(proj.to_exported(), after);
}

#[test]
fn undo_tuplize_brings_back_the_notes() {
    let mut proj = ProjectImpl::default();
    let n0 = eighth(100, Solfa::C, Octave::Oct4);
    let n1 = eighth(340, Solfa::D, Octave::Oct4);
    let n2 = eighth(580, Solfa::E, Octave::Oct4);
    proj.bulk_add(models(vec![n0.clone(), n1.clone(), n2.clone()], vec![]), ModelChangeMetadata::new());
    let before = proj.to_exported();
    let c = proj.tuplize(vec![Rc::new(n0), Rc::new(n1), Rc::new(n2)]).unwrap();
    assert_ne!(proj.to_exported(), before);
    let after = proj.to_exported();
    c.undo(&mut proj);
    assert_eq!(proj.to_exported(), before);
    c.redo(&mut proj);
    assert_eq!(proj.to_exported(), after);
}

#[test]
fn tick_location_reads_back() {
    let mut proj = ProjectImpl::default();
    proj.add_bar(plain_bar(100), false);
    proj.add_bar(plain_bar(1000), false);
    for (tick, bar_no, offset) in [(999u32, 1usize, 899usize), (1000, 2, 0), (99, 0, 99), (100, 1, 0), (5000, 2, 4000)] {
        let loc = proj.tick_to_location(tick);
        assert_eq!(loc, Location::new(bar_no, offset));
        assert_eq!(proj.location_to_tick(loc).unwrap(), tick);
    }
}

#[test]
fn stores_log_what_commands_do() {
    let mut proj = ProjectImpl::default();
    proj.add_tempo(Tempo::new(100, 200), true);
    let events = proj.tempo_repo().events();
    assert_eq!(events.len(), 1);
    assert!(matches!(&events[0], StoreEvent::Added { added, metadata }
        if *added == Tempo::new(100, 200) && metadata.need_select == Some(true)));

    proj.add_tempo(Tempo::new(100, 300), false);
    let events = proj.tempo_repo().events();
    assert_eq!(events.len(), 3);
    assert!(matches!(&events[1], StoreEvent::Removed(t) if *t == Tempo::new(100, 200)));
    assert!(matches!(&events[2], StoreEvent::Added { added, metadata }
        if *added == Tempo::new(100, 300) && metadata.need_select.is_none()));
    assert!(proj.note_repo().events().is_empty());

    proj.clear_model_events();
    assert!(proj.tempo_repo().events().is_empty());
    assert!(proj.bar_repo().events().is_empty());
}
