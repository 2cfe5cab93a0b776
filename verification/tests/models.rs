use std::rc::Rc;
use klavier_core::bar::{Bar, RepeatSet};
use klavier_core::channel::Channel;
use klavier_core::duration::{Denominator, Dots, Duration, Numerator};
use klavier_core::exported_project::ExportedProject;
use klavier_core::key::Key;
use klavier_core::models::{FromClipboardTextErr, LeadingValue, ModelChanges, Models};
use klavier_core::note::Note;
use klavier_core::octave::Octave;
use klavier_core::pitch::Pitch;
use klavier_core::rhythm::Rhythm;
use klavier_core::sharp_flat::SharpFlat;
use klavier_core::solfa::Solfa;
use klavier_core::tempo::Tempo;
use klavier_core::trimmer::{RateTrimmer, Trimmer};
use klavier_core::velocity::Velocity;

fn note(tick: u32) -> Note {
    Note {
        base_start_tick: tick,
        pitch: Pitch::new(Solfa::C, Octave::Oct4, SharpFlat::Null),
        duration: Duration::new(Numerator::Quarter, Denominator::from_value(2).unwrap(), Dots::ZERO()),
        tie: false,
        tied: false,
        base_velocity: Velocity::new(64),
        start_tick_trimmer: Trimmer::ZERO(),
        duration_trimmer: RateTrimmer::ONE(),
        velocity_trimmer: Trimmer::ZERO(),
        channel: Channel::default(),
    }
}

#[test]
fn parse_empty() {
    assert_eq!(Models::clipboard_body("".to_owned()), Err(FromClipboardTextErr::EmptyString));
    assert_eq!(Models::clipboard_body(" ".to_owned()), Err(FromClipboardTextErr::EmptyString));
}

#[test]
fn cannot_parse_version() {
    assert_eq!(Models::clipboard_body("-1".to_owned()), Err(FromClipboardTextErr::VersionNotU64 { err_json: "-1".to_owned() }));
    assert_eq!(Models::clipboard_body("1.1".to_owned()), Err(FromClipboardTextErr::VersionNotU64 { err_json: "1.1".to_owned() }));
    assert_eq!(Models::clipboard_body("[0]".to_owned()), Err(FromClipboardTextErr::VersionNotU64 { err_json: "[0]".to_owned() }));
    if let Err(FromClipboardTextErr::CannotParse { err_json: json, detail: _ }) = Models::clipboard_body("a".to_owned()) {
        assert_eq!(json, "a".to_owned());
    } else {
        panic!("Logic error.");
    }
}

#[test]
fn version_error() {
    let ver_str = (Models::VERSION + 1).to_string();
    assert_eq!(Models::clipboard_body(ver_str), Err(FromClipboardTextErr::VersionErr { detected_ver: Models::VERSION + 1 }));
}

#[test]
fn versioned_text_gives_the_body() {
    assert_eq!(Models::clipboard_body("1{\"notes\":[]}".to_owned()), Ok(1));
    assert_eq!(Models::clipboard_body("  1 {}".to_owned()), Ok(3));
}

#[test]
fn unreadable_text_cannot_be_parsed() {
    match Models::clipboard_body("{".to_owned()) {
        Err(FromClipboardTextErr::CannotParse { err_json, detail }) => {
            assert_eq!(err_json, "{");
            assert!(!detail.is_empty());
        }
        other => panic!("unexpected {:?}", other),
    }
}

#[test]
fn body_after_version_decides_by_the_leading_value() {
    let json = "x".to_owned();
    assert_eq!(Models::body_after_version(json.clone(), LeadingValue::Nothing, 0), Err(FromClipboardTextErr::EmptyString));
    assert_eq!(
        Models::body_after_version(json.clone(), LeadingValue::Unreadable("bad".to_owned()), 0),
        Err(FromClipboardTextErr::CannotParse { err_json: json.clone(), detail: "bad".to_owned() })
    );
    assert_eq!(Models::body_after_version(json.clone(), LeadingValue::Number(Some(1)), 7), Ok(7));
    assert_eq!(
        Models::body_after_version(json.clone(), LeadingValue::Number(Some(3)), 7),
        Err(FromClipboardTextErr::VersionErr { detected_ver: 3 })
    );
    assert_eq!(
        Models::body_after_version(json.clone(), LeadingValue::Number(None), 7),
        Err(FromClipboardTextErr::VersionNotU64 { err_json: json.clone() })
    );
    assert_eq!(
        Models::body_after_version(json.clone(), LeadingValue::Other, 7),
        Err(FromClipboardTextErr::VersionNotU64 { err_json: json })
    );
}

#[test]
fn clipboard_text_starts_with_the_version() {
    assert_eq!(Models::clipboard_text("{\"notes\":[]}"), "1{\"notes\":[]}");
    assert_eq!(Models::VERSION, 1);
}

#[test]
fn builders_set_each_kind_of_item() {
    let bars = vec![Bar::new(0, None, None, RepeatSet::EMPTY())];
    let tempos = vec![Tempo::new(10, 90)];
    let m = Models::empty().with_bars(bars.clone()).with_tempos(tempos.clone()).with_notes(&[Rc::new(note(5))]);
    assert_eq!(m.bars, bars);
    assert_eq!(m.tempos, tempos);
    assert_eq!(m.notes, vec![note(5)]);
    assert!(m.dumpers.is_empty() && m.softs.is_empty());
    let c = ModelChanges::empty().with_tempos(vec![(Tempo::new(1, 60), Tempo::new(2, 70))]);
    assert_eq!(c.tempos.len(), 1);
    assert!(ModelChanges::with_capacity(1, 1, 1, 1, 1).notes.is_empty());
    assert_eq!(Models::unwrap_rc(&[Rc::new(note(1)), Rc::new(note(2))]), vec![note(1), note(2)]);
}

#[test]
fn exported_items_become_models() {
    let e = ExportedProject {
        key: Some(Key::FLAT_3()),
        rhythm: Some(Rhythm::new(3, 4)),
        notes: vec![note(0)],
        bars: vec![],
        tempos: vec![Tempo::new(0, 100)],
        dumpers: vec![],
        softs: vec![],
    };
    let m = e.to_models();
    assert_eq!(m.notes, vec![note(0)]);
    assert_eq!(m.tempos, vec![Tempo::new(0, 100)]);
    assert!(m.bars.is_empty());
}
