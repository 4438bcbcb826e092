//! A verified looper engine: the rules that turn MIDI events and user commands
//! into what the loopers, the metronome, the ports and the displays have to do.

pub mod action;
pub mod api;
pub mod basic_laws;
pub mod buffer;
pub mod channel;
pub mod command_laws;
pub mod config;
pub mod engine;
pub mod host;
pub mod laws;
pub mod looper;
pub mod midi;
pub mod midi_out;
pub mod model;
pub mod note_engine;
pub mod note_laws;
pub mod period;
pub mod period_laws;
pub mod ports;
pub mod report_laws;
pub mod schedule;
pub mod session;
pub mod trigger;
