use klavier_core::channel::Channel;
use klavier_core::midi_events::{MidiEvents, MidiSrc};
use klavier_core::octave::Octave;
use klavier_core::pitch::Pitch;
use klavier_core::repeat::Chunk;
use klavier_core::sharp_flat::SharpFlat;
use klavier_core::solfa::Solfa;
use klavier_core::tempo::TempoValue;
use klavier_core::velocity::Velocity;

fn c4() -> Pitch {
    Pitch::new(Solfa::C, Octave::Oct4, SharpFlat::Null)
}

#[test]
fn note_on_bytes() {
    let mut buf = vec![7u8];
    MidiSrc::NoteOn { channel: Channel::new(1), pitch: c4(), velocity: Velocity::new(100) }.render_to(&mut buf);
    assert_eq!(buf, vec![7, 0x91, c4().value(), 100]);
}

#[test]
fn note_off_is_a_note_on_of_no_velocity() {
    let mut buf = vec![];
    MidiSrc::NoteOff { channel: Channel::new(15), pitch: c4() }.render_to(&mut buf);
    assert_eq!(buf, vec![0x9f, c4().value(), 0]);
}

#[test]
fn control_change_bytes() {
    let mut buf = vec![];
    MidiSrc::CtrlChg { channel: Channel::new(2), number: 64, velocity: Velocity::new(127) }.render_to(&mut buf);
    assert_eq!(buf, vec![0xb2, 64, 127]);
}

#[test]
fn cycles_of_ticks_at_a_tempo() {
    assert_eq!(MidiEvents::tick_to_cycle(240, 48000, 120, 240), 24000);
    assert_eq!(MidiEvents::tick_to_cycle(240, 48000, 60, 240), 48000);
    assert_eq!(MidiEvents::tick_to_cycle(0, 48000, 60, 240), 0);
}

#[test]
fn cycle_table_accumulates_the_stretches() {
    let mut events = MidiEvents::new(&[Chunk::new(0, 960)]);
    events.add_tempo(0, TempoValue::new(120));
    events.add_tempo(960, TempoValue::new(60));
    let cycles = events.cycles_by_accum_tick(48000, 240);
    assert_eq!(cycles.len(), 2);
    assert_eq!(cycles[0], (0, (TempoValue::new(120), 0)));
    assert_eq!(cycles[1], (960, (TempoValue::new(60), 96000)));
    assert_eq!(MidiEvents::accum_tick_to_cycle(&cycles, 480, 48000, 240), 48000);
    assert_eq!(MidiEvents::accum_tick_to_cycle(&cycles, 1200, 48000, 240), 144000);
}

#[test]
fn play_data_brings_cycles_back_to_ticks() {
    let mut events = MidiEvents::new(&[Chunk::new(0, 960), Chunk::new(0, 960)]);
    events.add_tempo(0, TempoValue::new(120));
    events.add_tempo(960, TempoValue::new(60));
    events.add_midi_event(480, MidiSrc::NoteOn { channel: Channel::new(0), pitch: c4(), velocity: Velocity::new(64) });
    events.add_midi_event(480, MidiSrc::NoteOff { channel: Channel::new(0), pitch: c4() });
    let cycles = events.cycles_by_accum_tick(48000, 240);
    let play = events.to_play_data(cycles, 48000, 240);
    assert_eq!(play.cycle_to_tick(48000, 48000), 480);
    assert_eq!(play.cycle_to_tick(120000, 48000), 1080);
    assert_eq!(play.accum_tick_to_tick(500), 500);
    assert_eq!(play.accum_tick_to_tick(1000), 40);
}
