use klavier_core::bar::{Bar, Repeat, RepeatSet, VarIndex};
use klavier_core::can_apply::CanApply;
use klavier_core::clipper;
use klavier_core::duration::{Denominator, Dots, Duration, Numerator};
use klavier_core::grid::{Grid, GridError};
use klavier_core::key::Key;
use klavier_core::location::{parse_location, Location};
use klavier_core::note::Note;
use klavier_core::octave::{Octave, OctaveError};
use klavier_core::percent::PercentU16;
use klavier_core::pitch::{self, Pitch, MAX_SCORE_OFFSET, MIN_SCORE_OFFSET};
use klavier_core::rhythm::{Rhythm, RhythmError};
use klavier_core::sharp_flat::SharpFlat;
use klavier_core::solfa::Solfa;
use klavier_core::tempo::Tempo;
use klavier_core::trimmer::{RateTrimmer, Trimmer};
use klavier_core::velocity::Velocity;

fn pct(rate: f32) -> PercentU16 {
    PercentU16::from_permille((rate * 1000.0) as i32)
}

fn rate_trimmer(r0: f32, r1: f32, r2: f32, r3: f32) -> RateTrimmer {
    RateTrimmer::from_values_and_sum([pct(r0), pct(r1), pct(r2), pct(r3)], pct(r0 * r1 * r2 * r3))
}

fn repeat_set(rs: &[Repeat]) -> RepeatSet {
    let mut set = RepeatSet::EMPTY();
    for r in rs.iter().rev() {
        set = set.try_add(*r).unwrap();
    }
    set
}

#[test]
fn empty_repeat_set() {
    let set = repeat_set(&[]);
    assert!(!set.contains(Repeat::Start));
    assert!(!set.contains(Repeat::End));
    assert!(!set.contains(Repeat::Dc));
    assert!(!set.contains(Repeat::Fine));
    assert!(!set.contains(Repeat::Ds));
    assert!(!set.contains(Repeat::Segno));
    assert!(!set.contains(Repeat::Var1));
    assert!(!set.contains(Repeat::Var2));
    assert!(!set.contains(Repeat::Var3));
    assert!(!set.contains(Repeat::Var4));
}

#[test]
fn repeat_set_contains() {
    let set = repeat_set(&[Repeat::Start, Repeat::End]);
    assert!(set.contains(Repeat::Start));
    assert!(set.contains(Repeat::End));
    assert!(!set.contains(Repeat::Dc));
    assert!(!set.contains(Repeat::Fine));
    assert!(!set.contains(Repeat::Ds));
    assert!(!set.contains(Repeat::Segno));
    assert!(!set.contains(Repeat::Var1));
    assert!(!set.contains(Repeat::Var2));
    assert!(!set.contains(Repeat::Var3));
    assert!(!set.contains(Repeat::Var4));
}

#[test]
fn cannot_dc_and_start() {
    let result = repeat_set(&[Repeat::Dc]).try_add(Repeat::Start);
    assert_eq!(result, Err(repeat_set(&[Repeat::Dc])));
}

#[test]
fn repeat_set_bits_follow_declaration_order() {
    assert_eq!(repeat_set(&[Repeat::Dc]).to_bits(), 4);
    assert_eq!(repeat_set(&[Repeat::Var1]).to_bits(), 128);
    assert_eq!(repeat_set(&[Repeat::End, Repeat::Start]).to_bits(), 3);
    assert_eq!(RepeatSet::from_bits(64), repeat_set(&[Repeat::Coda]));
    assert_eq!(RepeatSet::from_bits(4).len(), 1);
}

#[test]
fn repeat_set_remove_and_regions() {
    let set = repeat_set(&[Repeat::Var2, Repeat::Coda]);
    assert_eq!(set.region_index(), Some(VarIndex::VI2));
    assert_eq!(set.remove_resions(), repeat_set(&[Repeat::Coda]));
    assert_eq!(set.remove(Repeat::Coda).len(), 1);
    assert!(RepeatSet::EMPTY().is_empty());
    assert!(!set.is_empty());
}

#[test]
fn var_index_steps() {
    assert_eq!(VarIndex::VI1.next().unwrap(), VarIndex::VI2);
    assert!(VarIndex::VI4.next().is_err());
    assert!(VarIndex::VI1.prev().is_err());
    assert_eq!(VarIndex::from_value(3).unwrap().to_repeat(), Repeat::Var3);
}

#[test]
fn bar_with_tick_added() {
    let bar = Bar::new(100, None, None, RepeatSet::EMPTY());
    assert_eq!(bar.with_tick_added(-100).unwrap().start_tick, 0);
    assert!(bar.with_tick_added(-101).is_err());
    assert_eq!(bar.drag(20).start_tick, 120);
}

#[test]
fn can_i32_clipped() {
    let clipper = clipper::for_i32(5, 10);
    assert_eq!(clipper.clip(4), 5);
    assert_eq!(clipper.clip(5), 5);
    assert_eq!(clipper.clip(6), 6);
    assert_eq!(clipper.clip(9), 9);
    assert_eq!(clipper.clip(10), 10);
    assert_eq!(clipper.clip(11), 10);
}

#[test]
fn getter() {
    let d = Duration::new(Numerator::Half, Denominator::from_value(2).unwrap(), Dots::from_value(3).unwrap());
    assert_eq!(d.numerator, Numerator::Half);
    assert_eq!(d.denominator.value(), 2);
    assert_eq!(d.dots.value(), 3);
}

#[test]
fn tick_length() {
    assert_eq!(Duration::new(Numerator::Quarter, Denominator::from_value(2).unwrap(), Dots::ZERO()).tick_length(), 240);
    assert_eq!(Duration::new(Numerator::Half, Denominator::from_value(2).unwrap(), Dots::ZERO()).tick_length(), 480);
    assert_eq!(Duration::new(Numerator::Quarter, Denominator::from_value(3).unwrap(), Dots::ZERO()).tick_length(), 160);
    assert_eq!(Duration::new(Numerator::Quarter, Denominator::from_value(2).unwrap(), Dots::from_value(1).unwrap()).tick_length(), 360);
}

#[test]
fn empty_str() {
    assert_eq!(Grid::value_of(""), Err(GridError::ParseError("".to_owned())));
}

#[test]
fn non_numerical_str() {
    assert_eq!(Grid::value_of("1a"), Err(GridError::ParseError("1a".to_owned())));
}

#[test]
fn zero() {
    assert_eq!(Grid::value_of("0"), Err(GridError::ParseError("0".to_owned())));
}

#[test]
fn ok() {
    assert_eq!(Grid::value_of("120"), Ok(Grid::from_u32(120).unwrap()));
    assert_eq!(Grid::value_of("120").unwrap().as_u32(), 120);
}

#[test]
fn snap() {
    assert_eq!(Grid::from_u32(100).unwrap().snap(49), 0);
    assert_eq!(Grid::from_u32(100).unwrap().snap(50), 100);
    assert_eq!(Grid::from_u32(100).unwrap().snap(99), 100);
    assert_eq!(Grid::from_u32(100).unwrap().snap(149), 100);
    assert_eq!(Grid::from_u32(100).unwrap().snap(150), 200);
    assert_eq!(Grid::from_u32(100).unwrap().snap(199), 200);
    assert_eq!(Grid::from_u32(100).unwrap().snap(249), 200);

    assert_eq!(Grid::from_u32(100).unwrap().snap(-49), 0);
    assert_eq!(Grid::from_u32(100).unwrap().snap(-50), -100);
}

#[test]
fn can_match() {
    assert_eq!(Key::NONE().offset(), 0);
    assert_eq!(Key::SHARP_3().offset(), 3);
    assert_eq!(Key::FLAT_3().offset(), -3);
}

#[test]
fn parse_fail() {
    assert_eq!(parse_location(""), None);
    assert_eq!(parse_location("012"), None);
    assert_eq!(parse_location("01:"), None);
    assert_eq!(parse_location(":01"), None);
}

#[test]
fn parse_ok() {
    assert_eq!(parse_location("123:456"), Some(Location::new(123, 456)));
}

fn note_of(tick: u32, pitch: Pitch) -> Note {
    Note {
        base_start_tick: tick,
        pitch,
        duration: Duration::new(Numerator::Half, Denominator::from_value(2).unwrap(), Dots::ZERO()),
        base_velocity: Velocity::new(10),
        duration_trimmer: rate_trimmer(1.0, 0.5, 2.0, 1.5),
        ..Default::default()
    }
}

#[test]
fn note_tick_len() {
    let note = note_of(123, Pitch::new(Solfa::A, Octave::Oct1, SharpFlat::Null));
    assert_eq!(note.tick_len(), 720);
}

#[test]
fn up_score_offset() {
    let note = note_of(123, pitch::MAX());
    assert!(note.up_score_offset().is_err());

    let note = note_of(123, Pitch::new(Solfa::A, Octave::Oct1, SharpFlat::Null));
    assert_eq!(note.up_score_offset().unwrap().pitch, Pitch::new(Solfa::B, Octave::Oct1, SharpFlat::Null));
}

#[test]
fn with_tick_added() {
    let note = note_of(123, pitch::MAX());
    assert_eq!(note.with_tick_added(10, true).unwrap().start_tick(), 133);
    assert_eq!(note.with_tick_added(-122, true).unwrap().start_tick(), 1);
    assert_eq!(note.with_tick_added(-123, true).unwrap().start_tick(), 0);
    assert!(note.with_tick_added(-124, true).is_err());
}

#[test]
fn can_read_value() {
    assert_eq!(Octave::value_of(1).unwrap().value(), 1);
}

#[test]
fn can_read_score_offset() {
    assert_eq!(Octave::value_of(1).unwrap().offset(), 3);
}

#[test]
fn can_read_offset() {
    assert_eq!(Octave::value_of(-1).unwrap().offset(), 1);
}

#[test]
fn can_add() {
    assert_eq!(Octave::value_of(1).unwrap().add(Octave::value_of(2).unwrap()), Octave::value_of(3).unwrap());
}

#[test]
fn octave_add_assign() {
    let mut oct = Octave::Oct0;
    oct.add_assign(1);
    assert_eq!(Octave::Oct1, oct);

    oct.add_assign(2);
    assert_eq!(Octave::Oct3, oct);
}

#[test]
fn octave_sub_assign() {
    let mut oct = Octave::Oct1;
    oct.sub_assign(1);
    assert_eq!(Octave::Oct0, oct);

    oct.sub_assign(2);
    assert_eq!(Octave::OctM2, oct);
}

#[test]
fn octave_out_of_range_is_an_error() {
    assert!(Octave::value_of(-3).is_err());
    assert!(Octave::value_of(10).is_err());
}

#[test]
fn percent_too_high() {
    assert_eq!(PercentU16::MAX(), pct(201.0));
}

#[test]
fn percent_too_low() {
    assert_eq!(pct(-0.1), pct(0.0));
}

#[test]
fn percent_apply() {
    assert_eq!(pct(0.5).apply(60), 30);
}

#[test]
fn lowest() {
    assert_eq!(0, pitch::MIN().value());
    assert_eq!(MIN_SCORE_OFFSET, pitch::MIN().score_offset() as i32);
}

#[test]
fn f7() {
    assert_eq!(113, Pitch::new(Solfa::F, Octave::Oct7, SharpFlat::Null).value());
}

#[test]
fn highest() {
    assert_eq!(127, pitch::MAX().value());
    assert_eq!(MAX_SCORE_OFFSET, pitch::MAX().score_offset() as i32);
}

#[test]
fn lowest_score_offset() {
    assert_eq!(0, Pitch::new(Solfa::C, Octave::OctM2, SharpFlat::Null).score_offset());
}

#[test]
fn score_offset() {
    assert_eq!(1, Pitch::new(Solfa::D, Octave::OctM2, SharpFlat::Null).score_offset());
    assert_eq!(6, Pitch::new(Solfa::B, Octave::OctM2, SharpFlat::Null).score_offset());
    assert_eq!(7, Pitch::new(Solfa::C, Octave::OctM1, SharpFlat::Null).score_offset());
}

#[test]
fn up() {
    assert_eq!(
        Pitch::new(Solfa::F, Octave::Oct8, SharpFlat::Null).up().unwrap(),
        Pitch::new(Solfa::G, Octave::Oct8, SharpFlat::Null)
    );
    assert_eq!(
        Pitch::new(Solfa::B, Octave::Oct7, SharpFlat::Null).up().unwrap(),
        Pitch::new(Solfa::C, Octave::Oct8, SharpFlat::Null)
    );
}

#[test]
fn down() {
    assert_eq!(
        Pitch::new(Solfa::C, Octave::Oct8, SharpFlat::Null).down().unwrap(),
        Pitch::new(Solfa::B, Octave::Oct7, SharpFlat::Null)
    );
    assert_eq!(
        Pitch::new(Solfa::D, Octave::Oct7, SharpFlat::Null).down().unwrap(),
        Pitch::new(Solfa::C, Octave::Oct7, SharpFlat::Null)
    );
}

#[test]
fn pitch_up_down_limits_are_errors() {
    assert!(pitch::MAX().up().is_err());
    assert!(pitch::MIN().down().is_err());
    assert!(pitch::MIN().with_score_offset_delta(-1).is_err());
    assert!(pitch::MAX().with_score_offset_delta(1).is_err());
}

#[test]
fn pitch_from_score_offset() {
    assert_eq!(pitch::MIN(), Pitch::from_score_offset(MIN_SCORE_OFFSET - 1));
    assert_eq!(pitch::MAX(), Pitch::from_score_offset(MAX_SCORE_OFFSET + 1));

    assert_eq!(pitch::MIN(), Pitch::from_score_offset(MIN_SCORE_OFFSET));
    assert_eq!(pitch::MAX(), Pitch::from_score_offset(MAX_SCORE_OFFSET));
}

#[test]
fn with_score_offset_delta() {
    assert_eq!(
        Pitch::new(Solfa::C, Octave::Oct8, SharpFlat::Flat).with_score_offset_delta(1).unwrap(),
        Pitch::new(Solfa::D, Octave::Oct8, SharpFlat::Flat)
    );

    assert_eq!(
        Pitch::new(Solfa::C, Octave::Oct7, SharpFlat::Sharp).with_score_offset_delta(8).unwrap(),
        Pitch::new(Solfa::D, Octave::Oct8, SharpFlat::Sharp)
    );

    assert_eq!(
        Pitch::new(Solfa::C, Octave::Oct7, SharpFlat::Sharp).with_score_offset_delta(-8).unwrap(),
        Pitch::new(Solfa::B, Octave::Oct5, SharpFlat::Sharp)
    );
}

#[test]
fn pitch_apply() {
    let pitch = Pitch::new(Solfa::F, Octave::Oct1, SharpFlat::Null);
    assert_eq!(pitch.apply_key(Key::SHARP_1()).unwrap(), Pitch::new(Solfa::F, Octave::Oct1, SharpFlat::Sharp));

    let pitch = Pitch::new(Solfa::F, Octave::Oct1, SharpFlat::Flat);
    assert_eq!(pitch.apply_key(Key::SHARP_1()).unwrap(), Pitch::new(Solfa::F, Octave::Oct1, SharpFlat::Flat));

    let pitch = Pitch::new(Solfa::E, Octave::Oct1, SharpFlat::Null);
    assert_eq!(pitch.apply_key(Key::FLAT_2()).unwrap(), Pitch::new(Solfa::E, Octave::Oct1, SharpFlat::Flat));

    let pitch = Pitch::new(Solfa::E, Octave::Oct1, SharpFlat::Sharp);
    assert_eq!(pitch.apply_key(Key::FLAT_2()).unwrap(), Pitch::new(Solfa::E, Octave::Oct1, SharpFlat::Sharp));

    let pitch = Pitch::new(Solfa::F, Octave::Oct1, SharpFlat::Null);
    assert_eq!(pitch.apply_key(Key::FLAT_2()).unwrap(), Pitch::new(Solfa::F, Octave::Oct1, SharpFlat::Null));
}

#[test]
fn value_of_with_invalid_denominator() {
    assert_eq!(Rhythm::value_of(1, 3).err().unwrap(), RhythmError::DenominatorError(3))
}

#[test]
fn value_of_with_invalid_numerator() {
    assert_eq!(Rhythm::value_of(100, 2).err().unwrap(), RhythmError::NumeratorError(100))
}

#[test]
fn value_of() {
    assert_eq!(Rhythm::value_of(2, 4).ok().unwrap(), Rhythm::new(2, 4))
}

#[test]
fn rhythm_tick_len() {
    assert_eq!(Rhythm::value_of(4, 4).ok().unwrap().tick_len(), 240 * 4);
    assert_eq!(Rhythm::value_of(2, 4).ok().unwrap().tick_len(), 240 * 2);
    assert_eq!(Rhythm::value_of(2, 2).ok().unwrap().tick_len(), 480 * 2);
    assert_eq!(Rhythm::value_of(6, 8).ok().unwrap().tick_len(), 120 * 6);
}

#[test]
fn offset_is_valid() {
    assert_eq!(SharpFlat::Sharp.offset(), 1);
    assert_eq!(SharpFlat::DoubleSharp.offset(), 2);
    assert_eq!(SharpFlat::Flat.offset(), -1);
    assert_eq!(SharpFlat::DoubleFlat.offset(), -2);
    assert_eq!(SharpFlat::Natural.offset(), 0);
    assert_eq!(SharpFlat::Null.offset(), 0);
}

#[test]
fn score_offset_is_valid() {
    assert_eq!(Solfa::C.score_offset(), 0);
    assert_eq!(Solfa::D.score_offset(), 1);
    assert_eq!(Solfa::E.score_offset(), 2);
    assert_eq!(Solfa::F.score_offset(), 3);
    assert_eq!(Solfa::G.score_offset(), 4);
    assert_eq!(Solfa::A.score_offset(), 5);
    assert_eq!(Solfa::B.score_offset(), 6);
}

#[test]
fn pitch_offset_is_valid() {
    assert_eq!(Solfa::C.pitch_offset(), 0);
    assert_eq!(Solfa::D.pitch_offset(), 2);
    assert_eq!(Solfa::E.pitch_offset(), 4);
    assert_eq!(Solfa::F.pitch_offset(), 5);
    assert_eq!(Solfa::G.pitch_offset(), 7);
    assert_eq!(Solfa::A.pitch_offset(), 9);
    assert_eq!(Solfa::B.pitch_offset(), 11);
}

#[test]
fn solfa_from_score_offset() {
    assert_eq!(Solfa::from_score_offset(-1), Solfa::C);
    assert_eq!(Solfa::from_score_offset(0), Solfa::C);
    assert_eq!(Solfa::from_score_offset(1), Solfa::D);
    assert_eq!(Solfa::from_score_offset(2), Solfa::E);
    assert_eq!(Solfa::from_score_offset(3), Solfa::F);
    assert_eq!(Solfa::from_score_offset(4), Solfa::G);
    assert_eq!(Solfa::from_score_offset(5), Solfa::A);
    assert_eq!(Solfa::from_score_offset(6), Solfa::B);
    assert_eq!(Solfa::from_score_offset(7), Solfa::B);
}

#[test]
fn all() {
    assert_eq!(Solfa::ALL[0], Solfa::C);
    assert_eq!(Solfa::ALL[1], Solfa::D);
    assert_eq!(Solfa::ALL[2], Solfa::E);
    assert_eq!(Solfa::ALL[3], Solfa::F);
    assert_eq!(Solfa::ALL[4], Solfa::G);
    assert_eq!(Solfa::ALL[5], Solfa::A);
    assert_eq!(Solfa::ALL[6], Solfa::B);
    assert_eq!(Solfa::ALL.len(), 7);
}

#[test]
fn solfa_add_assign() {
    let mut solfa = Solfa::C;
    solfa.add_assign(1);
    assert_eq!(solfa, Solfa::D);
    solfa.add_assign(2);
    assert_eq!(solfa, Solfa::F);
}

#[test]
fn solfa_sub_assign() {
    let mut solfa = Solfa::B;
    solfa.sub_assign(1);
    assert_eq!(solfa, Solfa::A);
    solfa.sub_assign(2);
    assert_eq!(solfa, Solfa::F);
}

#[test]
fn sum() {
    let v = Trimmer::new(0, 1, 2, 3);
    assert_eq!(v.value(0), 0);
    assert_eq!(v.value(1), 1);
    assert_eq!(v.value(2), 2);
    assert_eq!(v.value(3), 3);

    assert_eq!(v.values()[0], 0);
    assert_eq!(v.values()[1], 1);
    assert_eq!(v.values()[2], 2);
    assert_eq!(v.values()[3], 3);

    assert_eq!(v.sum(), 6);
}

#[test]
fn eq() {
    let v0 = Trimmer::new(0, 1, 2, 3);
    let v1 = Trimmer::new(0, 1, 2, 3);
    let v2 = Trimmer::new(1, 0, 2, 3);

    assert!(v0 == v1);
    assert!(v0 != v2);
}

#[test]
fn updated() {
    let v0 = Trimmer::new(0, 1, 2, 3);
    let v1 = v0.updated(|mut values| {
        values[1] = 10;
        values
    });
    assert_eq!(v1.value(0), 0);
    assert_eq!(v1.value(1), 10);
    assert_eq!(v1.value(2), 2);
    assert_eq!(v1.value(3), 3);

    assert_eq!(v0.value(0), 0);
    assert_eq!(v0.value(1), 1);
    assert_eq!(v0.value(2), 2);
    assert_eq!(v0.value(3), 3);
}

#[test]
fn rate_eq() {
    let v0 = rate_trimmer(0.0, 1.0, 2.0, 3.0);
    let v1 = rate_trimmer(0.0, 1.0, 2.0, 3.0);
    let v2 = rate_trimmer(1.0, 0.0, 2.0, 3.0);

    assert!(v0 == v1);
    assert!(v0 != v2);
}

#[test]
fn added() {
    let v0 = Trimmer::new(0, 1, 2, 3);
    assert_eq!(v0.added(100), Trimmer::new(100, 1, 2, 3));
    assert_eq!(v0.added(i16::MAX as i32 + 1), Trimmer::new(i16::MAX, 2, 2, 3));
    assert_eq!(v0.added(i16::MAX as i32 * 2), Trimmer::new(i16::MAX, i16::MAX, 3, 3));
    assert_eq!(v0.added(i16::MAX as i32 * 3), Trimmer::new(i16::MAX, i16::MAX, i16::MAX, 6));
    assert_eq!(v0.added(i16::MAX as i32 * 4 - 6), Trimmer::new(i16::MAX, i16::MAX, i16::MAX, i16::MAX));
    assert_eq!(v0.added(i16::MAX as i32 * 4 - 5), Trimmer::new(i16::MAX, i16::MAX, i16::MAX, i16::MAX));
}

#[test]
fn added_clamps_sum_into_four_levels() {
    let v0 = Trimmer::new(0, 0, 0, 0);
    assert_eq!(v0.added(i32::MAX).sum(), 4 * i16::MAX as i32);
    assert_eq!(v0.added(i32::MIN).sum(), 4 * i16::MIN as i32);
    assert_eq!(v0.added(-5).sum(), -5);
}

#[test]
fn toggle_sharp_on_sharp_gives_natural() {
    let p = Pitch::new(Solfa::C, Octave::Oct4, SharpFlat::Sharp);
    let t = p.toggle_sharp().unwrap();
    assert_eq!(t.sharp_flat(), SharpFlat::Natural);
    assert_eq!(t.solfa(), Solfa::C);
    assert_eq!(t.octave(), Octave::Oct4);
    let p = Pitch::new(Solfa::C, Octave::Oct4, SharpFlat::Null);
    assert_eq!(p.toggle_sharp().unwrap().sharp_flat(), SharpFlat::Sharp);
}

#[test]
fn toggle_flat_on_flat_gives_natural() {
    let p = Pitch::new(Solfa::D, Octave::Oct4, SharpFlat::Flat);
    let t = p.toggle_flat().unwrap();
    assert_eq!(t.sharp_flat(), SharpFlat::Natural);
    assert_eq!(t.solfa(), Solfa::D);
    let p = Pitch::new(Solfa::D, Octave::Oct4, SharpFlat::Natural);
    assert_eq!(p.toggle_flat().unwrap().sharp_flat(), SharpFlat::Flat);
}

#[test]
fn tempo_drag_clamps_to_range() {
    let t = Tempo::new(100, 10);
    let d = t.drag(20, -20);
    assert_eq!(d.start_tick, 120);
    assert_eq!(d.value.as_u16(), 1);
    let t = Tempo::new(100, 990);
    assert_eq!(t.drag(0, 20).value.as_u16(), 999);
    assert_eq!(t.drag(0, -90).value.as_u16(), 900);
    assert_eq!(t.drag(0, -2000).value.as_u16(), 1);
}

#[test]
fn octave_out_of_range_is_error() {
    assert_eq!(Octave::from_score_offset(11), Err(OctaveError::InvalidValue(11)));
    assert_eq!(Octave::from_score_offset(-1), Err(OctaveError::InvalidValue(-1)));
    assert_eq!(Octave::from_score_offset(10).unwrap(), Octave::Oct8);
    assert_eq!(Octave::from_score_offset(0).unwrap(), Octave::OctM2);
    assert_eq!(Octave::value_of(9), Err(OctaveError::InvalidValue(11)));
}

#[test]
fn trimmer_sum_is_32_bit() {
    assert_eq!(Trimmer::from_array([i16::MAX, 1, 0, 0]).sum(), 32768);
    assert_eq!(Trimmer::from_array([i16::MIN, i16::MIN, i16::MIN, i16::MIN]).sum(), 4 * (i16::MIN as i32));
}
