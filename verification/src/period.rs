//! What goes in and out of the engine around a period of audio.

use vstd::prelude::*;

use crate::api::{
    EngineMode, EngineState, EngineSwitchingOrder, FrameTime, MetricStructure, Part,
    QuantizationMode,
};
use crate::schedule::Step;
use crate::trigger::TriggerCondition;

verus! {

/// How many loopers have a level meter.
pub const METERS: usize = 64;

/// What a period begins with.
#[derive(Debug, PartialEq, Eq)]
pub struct Period {
    /// The ids of the loopers that were removed.
    pub removed: Vec<u32>,
    /// Whether only soloing loopers are to be heard.
    pub solo: bool,
    /// Whether the engine runs in this period.
    pub active: bool,
    /// What happens in the period, in order.
    pub steps: Vec<Step>,
}

/// A looper's part in playing and recording some frames.
#[derive(Clone, Copy, Debug, PartialEq, Eq, Structural)]
pub struct LooperIo {
    pub position: usize,
    pub id: u32,
    /// The level meter of the looper, if it has one.
    pub meter: Option<usize>,
}

/// Which waiting times a command needs, and by which loop they are set.
#[derive(Clone, Copy, Debug, PartialEq, Eq, Structural)]
pub struct TriggerQuery {
    /// Whether the time without waiting is needed.
    pub immediate: bool,
    /// The condition whose time is needed, if one is.
    pub quantized: Option<TriggerCondition>,
    pub base_length: u64,
    pub base_offset: FrameTime,
}

/// The levels that were measured in a period.
#[derive(Clone, Copy, Debug)]
pub struct Levels {
    pub input: [u8; 2],
    pub loopers: [[u8; 2]; 64],
    /// The metronome volume, as the bits of a 32-bit float.
    pub metronome: u32,
    /// The metronome volume, as the MIDI output reports it.
    pub metronome_midi: u8,
}

/// What the display is told about the engine after each period.
#[derive(Clone, Copy, Debug)]
pub struct EngineStateSnapshot {
    pub engine_state: EngineState,
    pub engine_mode: EngineMode,
    pub engine_switching_order: EngineSwitchingOrder,
    pub time: FrameTime,
    pub metric_structure: MetricStructure,
    pub active_looper: u32,
    pub looper_count: usize,
    pub part: Part,
    pub solo: bool,
    pub sync_mode: QuantizationMode,
    pub input_levels: [u8; 2],
    pub looper_levels: [[u8; 2]; 64],
    /// The metronome volume, as the bits of a 32-bit float.
    pub metronome_volume: u32,
}

} // verus!
