//! The vocabulary of the engine: times, parts, modes and commands.

use vstd::prelude::*;

verus! {

/// A point in time, counted in audio frames from the start of the piece.
/// Negative times lie in the count-in before it.
#[derive(Clone, Copy, Debug, PartialEq, Eq, Structural)]
pub struct FrameTime(pub i64);

/// One of the four parts of a piece.
#[derive(Clone, Copy, Debug, PartialEq, Eq, Structural)]
pub enum Part {
    A,
    B,
    C,
    D,
}

impl Part {
    /// The place of the part in the order A, B, C, D.
    pub open spec fn spec_index(self) -> u8 {
        match self {
            Part::A => 0,
            Part::B => 1,
            Part::C => 2,
            Part::D => 3,
        }
    }

    /// The part after this one; A follows D.
    pub open spec fn spec_next(self) -> Part {
        match self {
            Part::A => Part::B,
            Part::B => Part::C,
            Part::C => Part::D,
            Part::D => Part::A,
        }
    }

    /// The part before this one; D precedes A.
    pub open spec fn spec_previous(self) -> Part {
        match self {
            Part::A => Part::D,
            Part::B => Part::A,
            Part::C => Part::B,
            Part::D => Part::C,
        }
    }

    /// The place of the part in the order A, B, C, D.
    pub fn index(&self) -> (r: u8)
        ensures
            r == self.spec_index(),
    {
        match self {
            Part::A => 0,
            Part::B => 1,
            Part::C => 2,
            Part::D => 3,
        }
    }

    /// The part after this one; A follows D.
    pub fn next(self) -> (r: Part)
        ensures
            r == self.spec_next(),
    {
        match self {
            Part::A => Part::B,
            Part::B => Part::C,
            Part::C => Part::D,
            Part::D => Part::A,
        }
    }

    /// The part before this one; D precedes A.
    pub fn previous(self) -> (r: Part)
        ensures
            r == self.spec_previous(),
    {
        match self {
            Part::A => Part::D,
            Part::B => Part::A,
            Part::C => Part::B,
            Part::D => Part::C,
        }
    }
}

/// A set of parts.
#[derive(Clone, Copy, Debug, PartialEq, Eq, Structural)]
pub struct PartSet {
    pub a: bool,
    pub b: bool,
    pub c: bool,
    pub d: bool,
}

impl PartSet {
    /// Whether `part` is in the set.
    pub open spec fn has(self, part: Part) -> bool {
        match part {
            Part::A => self.a,
            Part::B => self.b,
            Part::C => self.c,
            Part::D => self.d,
        }
    }

    /// Whether `part` is in the set.
    pub fn contains(&self, part: Part) -> (r: bool)
        ensures
            r == self.has(part),
    {
        match part {
            Part::A => self.a,
            Part::B => self.b,
            Part::C => self.c,
            Part::D => self.d,
        }
    }
}

/// What a looper is doing.
#[derive(Clone, Copy, Debug, PartialEq, Eq, Structural)]
pub enum LooperMode {
    Recording,
    Overdubbing,
    Muted,
    Playing,
    Soloed,
    Armed,
}

/// A command to a single looper.
#[derive(Clone, Copy, Debug, PartialEq, Eq, Structural)]
pub enum LooperCommand {
    Record,
    RecordOverdubPlay,
    RecordPlayOverdub,
    Play,
    /// Set the playback level; the bits of a 32-bit float.
    SetLevel(u32),
    /// Set the stereo position; the bits of a 32-bit float.
    SetPan(u32),
    /// A command that the engine hands on without looking into it, by the
    /// number that the looper knows it by.
    Other(u32),
}

/// Which loopers a looper command is meant for.
#[derive(Clone, Copy, Debug, PartialEq, Eq, Structural)]
pub enum LooperTarget {
    /// The looper with this id.
    Id(u32),
    /// The looper at this place among those that are not deleted.
    Index(u8),
    /// Every looper.
    All,
    /// Every looper, all but the first in sync with it.
    AllSync,
    /// The active looper.
    Selected,
}

/// What a command waits for before it takes effect.
#[derive(Clone, Copy, Debug, PartialEq, Eq, Structural)]
pub enum QuantizationMode {
    Free,
    Beat,
    Measure,
    Loop,
}

#[derive(Clone, Copy, Debug, PartialEq, Eq, Structural)]
pub enum EngineState {
    Stopped,
    Paused,
    Active,
}

#[derive(Clone, Copy, Debug, PartialEq, Eq, Structural)]
pub enum EngineMode {
    Record,
    Play,
}

/// The order in which a looper cycles through its modes.
#[derive(Clone, Copy, Debug, PartialEq, Eq, Structural)]
pub enum EngineSwitchingOrder {
    RecordPlayOverdub,
    RecordOverdubPlay,
}

/// A tempo, as the bits of a 32-bit float that counts beats per minute.
#[derive(Clone, Copy, Debug, PartialEq, Eq, Structural)]
pub struct Tempo(pub u32);

#[derive(Clone, Copy, Debug, PartialEq, Eq, Structural)]
pub struct TimeSignature {
    pub upper: u8,
    pub lower: u8,
}

#[derive(Clone, Copy, Debug, PartialEq, Eq, Structural)]
pub struct MetricStructure {
    pub time_signature: TimeSignature,
    pub tempo: Tempo,
}

/// A command to the engine.
#[derive(Debug, PartialEq, Eq)]
pub enum Command {
    Looper(LooperCommand, LooperTarget),
    Start,
    Pause,
    Stop,
    StartStop,
    PlayPause,
    Reset,
    SetTime(FrameTime),
    AddLooper,
    SelectLooperById(u32),
    SelectLooperByIndex(u8),
    SelectNextLooper,
    SelectPreviousLooper,
    PreviousPart,
    NextPart,
    GoToPart(Part),
    SetQuantizationMode(QuantizationMode),
    /// Save the session under a path.
    SaveSession(String),
    /// Load the session from a path.
    LoadSession(String),
    /// Set the metronome level, in percent.
    SetMetronomeLevel(u8),
    /// Set the beats per minute; the bits of a 32-bit float.
    SetTempoBPM(u32),
    /// Add to the beats per minute; the bits of a 32-bit float.
    ChangeTempoBPM(u32),
    SetTimeSignature(u8, u8),
    ToggleMode,
}

impl Clone for Command {
    fn clone(&self) -> (r: Self)
        ensures
            r == *self,
    {
        match self {
            Command::Looper(c, t) => Command::Looper(*c, *t),
            Command::Start => Command::Start,
            Command::Pause => Command::Pause,
            Command::Stop => Command::Stop,
            Command::StartStop => Command::StartStop,
            Command::PlayPause => Command::PlayPause,
            Command::Reset => Command::Reset,
            Command::SetTime(t) => Command::SetTime(*t),
            Command::AddLooper => Command::AddLooper,
            Command::SelectLooperById(id) => Command::SelectLooperById(*id),
            Command::SelectLooperByIndex(i) => Command::SelectLooperByIndex(*i),
            Command::SelectNextLooper => Command::SelectNextLooper,
            Command::SelectPreviousLooper => Command::SelectPreviousLooper,
            Command::PreviousPart => Command::PreviousPart,
            Command::NextPart => Command::NextPart,
            Command::GoToPart(p) => Command::GoToPart(*p),
            Command::SetQuantizationMode(m) => Command::SetQuantizationMode(*m),
            Command::SaveSession(p) => Command::SaveSession(p.clone()),
            Command::LoadSession(p) => Command::LoadSession(p.clone()),
            Command::SetMetronomeLevel(l) => Command::SetMetronomeLevel(*l),
            Command::SetTempoBPM(b) => Command::SetTempoBPM(*b),
            Command::ChangeTempoBPM(b) => Command::ChangeTempoBPM(*b),
            Command::SetTimeSignature(u, l) => Command::SetTimeSignature(*u, *l),
            Command::ToggleMode => Command::ToggleMode,
        }
    }
}

} // verus!
