use std::rc::Rc;
use klavier_core::bar::{Bar, Repeat, RepeatSet};
use klavier_core::duration::{Denominator, Dots, Duration, Numerator};
use klavier_core::models::Models;
use klavier_core::note::Note;
use klavier_core::octave::Octave;
use klavier_core::percent::PercentU16;
use klavier_core::pitch::Pitch;
use klavier_core::project::ModelChangeMetadata;
use klavier_core::sharp_flat::SharpFlat;
use klavier_core::solfa::Solfa;
use klavier_core::trimmer::RateTrimmer;
use klavier_core::undo::{Undo, UndoStore};
use klavier_core::velocity::Velocity;

fn pct(rate: f32) -> PercentU16 {
    PercentU16::from_permille((rate * 1000.0) as i32)
}

fn rate_trimmer(r0: f32, r1: f32, r2: f32, r3: f32) -> RateTrimmer {
    RateTrimmer::from_values_and_sum([pct(r0), pct(r1), pct(r2), pct(r3)], pct(r0 * r1 * r2 * r3))
}

fn test_models() -> [Models; 5] {
    let note0 = Rc::new(
        Note {
            base_start_tick: 123,
            pitch: Pitch::new(Solfa::C, Octave::Oct1, SharpFlat::Null),
            duration: Duration::new(Numerator::Half, Denominator::from_value(2).unwrap(), Dots::ZERO()),
            base_velocity: Velocity::new(10),
            duration_trimmer: rate_trimmer(1.0, 0.5, 2.0, 1.5),
            ..Default::default()
        }
    );
    let note1 = Rc::new(
        Note {
            base_start_tick: 123,
            pitch: Pitch::new(Solfa::D, Octave::Oct1, SharpFlat::Null),
            duration: Duration::new(Numerator::Half, Denominator::from_value(2).unwrap(), Dots::ZERO()),
            base_velocity: Velocity::new(10),
            duration_trimmer: rate_trimmer(1.0, 0.5, 2.0, 1.5),
            ..Default::default()
        }
    );
    let note2 = Rc::new(
        Note {
            base_start_tick: 234,
            pitch: Pitch::new(Solfa::E, Octave::Oct1, SharpFlat::Null),
            duration: Duration::new(Numerator::Half, Denominator::from_value(2).unwrap(), Dots::ZERO()),
            base_velocity: Velocity::new(10),
            duration_trimmer: rate_trimmer(1.0, 0.5, 2.0, 1.5),
            ..Default::default()
        }
    );
    let note3 = Rc::new(
        Note {
            base_start_tick: 345,
            pitch: Pitch::new(Solfa::F, Octave::Oct1, SharpFlat::Null),
            duration: Duration::new(Numerator::Half, Denominator::from_value(2).unwrap(), Dots::ZERO()),
            base_velocity: Velocity::new(10),
            duration_trimmer: rate_trimmer(1.0, 0.5, 2.0, 1.5),
            ..Default::default()
        }
    );

    let bar0 = Bar::new(123, None, None, RepeatSet::EMPTY());
    let bar1 = Bar::new(
        234, None, None, RepeatSet::EMPTY().try_add(Repeat::Dc).unwrap()
    );
    let bar2 = Bar::new(
        345, None, None, RepeatSet::EMPTY().try_add(Repeat::End).unwrap()
    );
    let bar3 = Bar::new(
        456, None, None, RepeatSet::EMPTY().try_add(Repeat::Start).unwrap()
    );
    let bar4 = Bar::new(
        567, None, None, RepeatSet::EMPTY().try_add(Repeat::Start).unwrap(),
    );

    [
      Models {
        notes: vec![(*note0).clone()], bars: vec![], tempos: vec![], dumpers: vec![], softs: vec![],
      },
      Models {
        notes: vec![], bars: vec![bar0], tempos: vec![], dumpers: vec![], softs: vec![],
      },
      Models {
        notes: vec![(*note1).clone()], bars: vec![bar1, bar2], tempos: vec![], dumpers: vec![], softs: vec![],
      },
      Models {
        notes: vec![(*note2).clone()], bars: vec![bar3], tempos: vec![], dumpers: vec![], softs: vec![],
      },
      Models {
        notes: vec![(*note3).clone()], bars: vec![bar4], tempos: vec![], dumpers: vec![], softs: vec![],
      },
    ]
}

#[test]
fn should_be_dropped_when_capacity_reached() {
    let mut store = UndoStore::new(3);
    let models = test_models();
    assert!(! store.can_undo());
    assert_eq!(store.undo(), None);
    let metadata = ModelChangeMetadata::default();
    store.add(Undo::Changed { added: models[0].clone(), removed: Models::empty(), metadata });
    assert_eq!(store.len(), 1);
    let mut z = store.iter();
    assert_eq!(z.next(), Some(&Undo::Changed { added: models[0].clone(), removed: Models::empty(), metadata }));
    assert_eq!(z.next(), None);
    assert!(store.can_undo());
    
    store.add(Undo::Changed { added: models[1].clone(), removed: Models::empty(), metadata });
    assert_eq!(store.len(), 2);
    let mut z = store.iter();
    assert_eq!(z.next(), Some(&Undo::Changed { added: models[1].clone(), removed: Models::empty(), metadata }));
    assert_eq!(z.next(), Some(&Undo::Changed { added: models[0].clone(), removed: Models::empty(), metadata }));
    assert_eq!(z.next(), None);
    assert!(store.can_undo());
    
    store.add(Undo::Changed { added: models[2].clone(), removed: Models::empty(), metadata });
    assert_eq!(store.len(), 3);
    let mut z = store.iter();
    assert_eq!(z.next(), Some(&Undo::Changed { added: models[2].clone(), removed: Models::empty(), metadata }));
    assert_eq!(z.next(), Some(&Undo::Changed { added: models[1].clone(), removed: Models::empty(), metadata } ));
    assert_eq!(z.next(), Some(&Undo::Changed { added: models[0].clone(), removed: Models::empty(), metadata }));
    assert_eq!(z.next(), None);
    assert!(store.can_undo());
    
    store.add(Undo::Changed { added: models[3].clone(), removed: Models::empty(), metadata });
    assert_eq!(store.len(), 3);
    let mut z = store.iter();
    assert_eq!(z.next(), Some(&Undo::Changed { added: models[3].clone(), removed: Models::empty(), metadata }));
    assert_eq!(z.next(), Some(&Undo::Changed { added: models[2].clone(), removed: Models::empty(), metadata }));
    assert_eq!(z.next(), Some(&Undo::Changed { added: models[1].clone(), removed: Models::empty(), metadata }));
    assert_eq!(z.next(), None);
    assert!(store.can_undo());
    
    store.add(Undo::Changed { added: models[4].clone(), removed: Models::empty(), metadata });
    assert_eq!(store.len(), 3);
    let mut z = store.iter();
    assert_eq!(z.next(), Some(&Undo::Changed { added: models[4].clone(), removed: Models::empty(), metadata }));
    assert_eq!(z.next(), Some(&Undo::Changed { added: models[3].clone(), removed: Models::empty(), metadata }));
    assert_eq!(z.next(), Some(&Undo::Changed { added: models[2].clone(), removed: Models::empty(), metadata }));
    assert_eq!(z.next(), None);
    assert!(store.can_undo());
}

#[test]
fn can_undo() {
    let mut store = UndoStore::new(3);
    let models = test_models();
    let metadata = ModelChangeMetadata::default();
    assert!(! store.can_undo());
    store.add(Undo::Changed { added: models[0].clone(), removed: Models::empty(), metadata });
    store.add(Undo::Changed { added: models[1].clone(), removed: Models::empty(), metadata });

    assert!(store.can_undo());
    assert_eq!(store.undo(), Some(&Undo::Changed { added: models[1].clone(), removed: Models::empty(), metadata }));
    assert_eq!(store.undo(), Some(&Undo::Changed { added: models[0].clone(), removed: Models::empty(), metadata }));
    assert_eq!(store.undo(), None);
    assert!(! store.can_undo());

    store.add(Undo::Changed { added: models[0].clone(), removed: Models::empty(), metadata });
    store.add(Undo::Changed { added: models[1].clone(), removed: Models::empty(), metadata });
    store.add(Undo::Changed { added: models[2].clone(), removed: Models::empty(), metadata });
    assert!(store.can_undo());
    assert_eq!(store.undo(), Some(&Undo::Changed { added: models[2].clone(), removed: Models::empty(), metadata }));
    store.add(Undo::Changed { added: models[3].clone(), removed: Models::empty(), metadata });
    assert_eq!(store.undo(), Some(&Undo::Changed { added: models[3].clone(), removed: Models::empty(), metadata }));
    assert_eq!(store.undo(), Some(&Undo::Changed { added: models[1].clone(), removed: Models::empty(), metadata }));
    assert_eq!(store.undo(), Some(&Undo::Changed { added: models[0].clone(), removed: Models::empty(), metadata }));
    assert_eq!(store.undo(), None);
    assert!(! store.can_undo());
}


#[test]
fn redo_gives_back_what_was_undone() {
    let mut store = UndoStore::new(3);
    let models = test_models();
    let metadata = ModelChangeMetadata::default();
    store.add(Undo::Changed { added: models[0].clone(), removed: Models::empty(), metadata });
    assert!(!store.can_redo());
    assert_eq!(store.redo(), None);
    let undone = store.undo().cloned();
    assert!(store.can_redo());
    assert_eq!(store.redo().cloned(), undone);
    assert!(!store.can_redo());
}

#[test]
fn frozen_store_ignores_changes() {
    let mut store = UndoStore::new(3);
    let models = test_models();
    let metadata = ModelChangeMetadata::default();
    store.freeze(true);
    store.add(Undo::Changed { added: models[0].clone(), removed: Models::empty(), metadata });
    assert!(store.is_empty());
    store.freeze(false);
    store.add(Undo::Changed { added: models[0].clone(), removed: Models::empty(), metadata });
    assert_eq!(store.len(), 1);
}
