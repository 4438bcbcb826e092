//! What the engine asks of the parts around it.

use vstd::prelude::*;

use crate::api::{Command, FrameTime, LooperCommand, MetricStructure, Part, QuantizationMode, Tempo};

verus! {

/// Something that the parts around the engine have to do.
#[derive(Debug, PartialEq, Eq)]
#[allow(inconsistent_fields)]
pub enum Action {
    /// Let the looper at a position carry out a command.
    Looper { position: usize, command: LooperCommand, loop_sync: bool },
    /// Move every looper to a time.
    SetLooperTimes(FrameTime),
    /// Show that a looper command is waiting.
    ShowLoopTrigger { looper: u32, at: FrameTime, command: LooperCommand },
    /// Show that an engine command is waiting.
    ShowGlobalTrigger { at: FrameTime, command: Command },
    /// Restart the metronome.
    ResetMetronome,
    /// Give the metronome a new metric structure.
    SetMetronomeStructure(MetricStructure),
    /// Set the metronome level, in percent.
    SetMetronomeLevel(u8),
    /// Make a looper that plays in a part, and add it to the engine.
    CreateLooper { id: u32, part: Part },
    /// Have a looper saved with the session, and open its output.
    AttachLooper(u32),
    /// No longer have a looper saved with the session, and show that it is gone.
    RemoveLooper(u32),
    /// Work out the tempo of this many beats per minute, and set it.
    WorkOutTempo { bpm: u32 },
    /// Work out the tempo that is this many beats per minute faster, and set it.
    WorkOutTempoChange { tempo: Tempo, delta: u32 },
    /// Work out a time signature, and set it if there is such a one.
    WorkOutTimeSignature { upper: u8, lower: u8 },
    /// Save the session.
    SaveSession { metric_structure: MetricStructure, sync_mode: QuantizationMode, path: String },
    /// Load the session.
    LoadSession { path: String },
    /// Report that the session was saved at another sample rate.
    ReportSampleRate { saved: usize, system: usize },
}

} // verus!
