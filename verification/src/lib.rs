//! Core model of a MIDI sequencer: pitches, durations, notes, bars,
//! repeat structures and the rendering of repeats into play order.
#![allow(unused_imports)]

pub mod solfa;
pub mod sharp_flat;
pub mod octave;
pub mod key;
pub mod pitch;
pub mod velocity;
pub mod channel;
pub mod can_apply;
pub mod percent;
pub mod clipper;
pub mod numtext;
pub mod duration;
pub mod rhythm;
pub mod trimmer;
pub mod have_start_tick;
pub mod note;
pub mod tempo;
pub mod ctrl_chg;
pub mod play_iter;
pub mod grid;
pub mod location;
pub mod bar;
pub mod tick_set;
pub mod repeat;
pub mod global_repeat;
pub mod play_start_tick;
pub mod tuple;
pub mod project;
pub mod models;
pub mod exported_project;
pub mod undo;
pub mod text_input;
pub mod repo;
pub mod midi_events;
