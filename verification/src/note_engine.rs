//! A small engine that is played with three notes of a MIDI keyboard: one to
//! record, one to play and pause, one to add a looper.
//!
//! Samples are of any type; the engine stores them and says which to play, and
//! leaves adding them up to its caller.

use vstd::prelude::*;

verus! {

#[derive(Clone, Copy, Debug, PartialEq, Eq, Structural)]
pub enum PlayMode {
    Paused,
    Playing,
}

#[derive(Clone, Copy, Debug, PartialEq, Eq, Structural)]
pub enum RecordMode {
    Off,
    /// About to record, as soon as there is something to hear.
    Ready,
    Record,
    Overdub,
}

/// A recording, left and right.
pub struct Layer<S> {
    pub left: Vec<S>,
    pub right: Vec<S>,
}

/// What a layer holds.
#[verifier::ext_equal]
pub struct LayerModel<S> {
    pub left: Seq<S>,
    pub right: Seq<S>,
}

impl<S> LayerModel<S> {
    pub open spec fn blank() -> LayerModel<S> {
        LayerModel { left: Seq::empty(), right: Seq::empty() }
    }
}

impl<S> View for Layer<S> {
    type V = LayerModel<S>;

    open spec fn view(&self) -> LayerModel<S> {
        LayerModel { left: self.left@, right: self.right@ }
    }
}

/// A looper with the layers that were recorded over one another.
pub struct Looper<S> {
    id: u32,
    layers: Vec<Layer<S>>,
    play_mode: PlayMode,
    record_mode: RecordMode,
}

/// The state of a looper.
#[verifier::ext_equal]
pub struct LooperModel<S> {
    pub id: u32,
    pub layers: Seq<LayerModel<S>>,
    pub play_mode: PlayMode,
    pub record_mode: RecordMode,
}

impl<S> View for Looper<S> {
    type V = LooperModel<S>;

    closed spec fn view(&self) -> LooperModel<S> {
        LooperModel {
            id: self.id,
            layers: self.layers@.map_values(|l: Layer<S>| l@),
            play_mode: self.play_mode,
            record_mode: self.record_mode,
        }
    }
}

impl<S> LooperModel<S> {
    /// A looper without a recording, which neither plays nor records.
    pub open spec fn fresh(id: u32) -> LooperModel<S> {
        LooperModel {
            id,
            layers: Seq::empty(),
            play_mode: PlayMode::Paused,
            record_mode: RecordMode::Off,
        }
    }

    /// The record note: get ready to record, or overdub what is playing.
    pub open spec fn after_record_note(self) -> LooperModel<S> {
        if self.layers.len() == 0 || self.play_mode == PlayMode::Paused {
            LooperModel { record_mode: RecordMode::Ready, ..self }
        } else {
            LooperModel {
                record_mode: RecordMode::Overdub,
                layers: self.layers.push(LayerModel::blank()),
                ..self
            }
        }
    }

    /// The play note: stop recording, and play or pause.
    pub open spec fn after_play_note(self) -> LooperModel<S> {
        LooperModel {
            record_mode: RecordMode::Off,
            play_mode: if self.play_mode == PlayMode::Paused {
                PlayMode::Playing
            } else {
                PlayMode::Paused
            },
            ..self
        }
    }

    /// Something can be heard: a looper that is ready starts over and records.
    pub open spec fn after_sound(self) -> LooperModel<S> {
        if self.record_mode == RecordMode::Ready {
            LooperModel { record_mode: RecordMode::Record, layers: Seq::empty(), ..self }
        } else {
            self
        }
    }

    /// A looper that records appends what is heard to its first layer.
    pub open spec fn after_frames(self, left: Seq<S>, right: Seq<S>) -> LooperModel<S> {
        if self.record_mode == RecordMode::Record {
            let first = if self.layers.len() == 0 {
                LayerModel::blank()
            } else {
                self.layers[0]
            };
            let longer = LayerModel { left: first.left + left, right: first.right + right };
            LooperModel {
                layers: if self.layers.len() == 0 {
                    seq![longer]
                } else {
                    self.layers.update(0, longer)
                },
                ..self
            }
        } else {
            self
        }
    }

    /// The length of the loop: that of the first layer.
    pub open spec fn length(self) -> nat {
        if self.layers.len() == 0 {
            0
        } else {
            self.layers[0].left.len()
        }
    }
}

impl<S: Copy> Looper<S> {
    /// A looper without a recording.
    pub fn new(id: u32) -> (r: Looper<S>)
        ensures
            r@ == LooperModel::<S>::fresh(id),
    {
        let r = Looper {
            id,
            layers: Vec::new(),
            play_mode: PlayMode::Paused,
            record_mode: RecordMode::Off,
        };
        assert(r@ =~= LooperModel::<S>::fresh(id));
        r
    }

    fn set_record_mode(&mut self, mode: RecordMode)
        ensures
            final(self)@ == (LooperModel { record_mode: mode, ..old(self)@ }),
    {
        self.record_mode = mode;
    }

    fn set_play_mode(&mut self, mode: PlayMode)
        ensures
            final(self)@ == (LooperModel { play_mode: mode, ..old(self)@ }),
    {
        self.play_mode = mode;
    }

    fn push_blank(&mut self)
        ensures
            final(self)@ == (LooperModel {
                layers: old(self)@.layers.push(LayerModel::blank()),
                ..old(self)@
            }),
    {
        self.layers.push(Layer { left: Vec::new(), right: Vec::new() });
        assert(self@.layers =~= old(self)@.layers.push(LayerModel::blank()));
    }

    fn record_note(&mut self)
        ensures
            final(self)@ == old(self)@.after_record_note(),
    {
        if self.layers.len() == 0 || self.play_mode == PlayMode::Paused {
            self.set_record_mode(RecordMode::Ready);
        } else {
            self.set_record_mode(RecordMode::Overdub);
            self.push_blank();
        }
    }

    fn play_note(&mut self)
        ensures
            final(self)@ == old(self)@.after_play_note(),
    {
        self.set_record_mode(RecordMode::Off);
        if self.play_mode == PlayMode::Paused {
            self.set_play_mode(PlayMode::Playing);
        } else {
            self.set_play_mode(PlayMode::Paused);
        }
    }

    fn sound(&mut self)
        ensures
            final(self)@ == old(self)@.after_sound(),
    {
        if self.record_mode == RecordMode::Ready {
            self.layers.clear();
            self.set_record_mode(RecordMode::Record);
            assert(self@.layers =~= Seq::<LayerModel<S>>::empty());
        }
    }

    fn extend(samples: &mut Vec<S>, more: &Vec<S>)
        ensures
            final(samples)@ == old(samples)@ + more@,
    {
        let mut i: usize = 0;
        while i < more.len()
            invariant
                i <= more.len(),
                samples@ =~= old(samples)@ + more@.take(i as int),
            decreases more.len() - i,
        {
            samples.push(more[i]);
            i = i + 1;
        }
        assert(more@.take(i as int) =~= more@);
    }

    fn record(&mut self, left: &Vec<S>, right: &Vec<S>)
        ensures
            final(self)@ == old(self)@.after_frames(left@, right@),
    {
        if self.record_mode == RecordMode::Record {
            if self.layers.len() == 0 {
                self.push_blank();
            }
            let ghost layers = self.layers@;
            assert(self@.layers.len() == layers.len());
            assert(self@.layers[0] == layers[0]@);
            let layer = &mut self.layers[0];
            Self::extend(&mut layer.left, left);
            Self::extend(&mut layer.right, right);
            assert(self.layers@ =~= layers.update(0, self.layers@[0]));
            assert(self@.layers =~= old(self)@.after_frames(left@, right@).layers);
        }
    }
}

/// What the display is told about a looper.
#[derive(Clone, Copy, Debug, PartialEq, Eq, Structural)]
pub struct LoopState {
    pub id: u32,
    pub record_mode: RecordMode,
    pub play_mode: PlayMode,
    /// How far into the loop the playback is, in frames.
    pub time: usize,
    /// The length of the loop, in frames.
    pub length: usize,
    pub active: bool,
}

/// What the display is told after each period.
#[derive(Debug, PartialEq, Eq)]
pub struct State {
    pub loops: Vec<LoopState>,
}

/// The engine.
pub struct Engine<S> {
    time: usize,
    loopers: Vec<Looper<S>>,
    active: usize,
    id_counter: u32,
}

/// The state of the engine.
#[verifier::ext_equal]
pub struct EngineModel<S> {
    pub time: nat,
    pub loopers: Seq<LooperModel<S>>,
    /// The position of the active looper.
    pub active: int,
    pub id_counter: nat,
}

/// The status byte of a note that is struck on the first channel.
pub const NOTE_ON: u8 = 144;

/// The note that records.
pub const RECORD_NOTE: u8 = 60;

/// The note that plays and pauses.
pub const PLAY_NOTE: u8 = 62;

/// The note that adds a looper.
pub const ADD_NOTE: u8 = 64;

/// Whether a MIDI message strikes a note.
pub open spec fn strikes(bytes: Seq<u8>, note: u8) -> bool {
    bytes.len() == 3 && bytes[0] == NOTE_ON && bytes[1] == note
}

/// How many of some MIDI messages add a looper.
pub open spec fn additions(events: Seq<Vec<u8>>) -> nat
    decreases events.len(),
{
    if events.len() == 0 {
        0
    } else {
        additions(events.drop_last()) + if strikes(events.last()@, ADD_NOTE) {
            1nat
        } else {
            0nat
        }
    }
}

impl<S> EngineModel<S> {
    /// What holds of every engine: there is an active looper.
    pub open spec fn wf(self) -> bool {
        0 <= self.active < self.loopers.len()
    }

    /// With another state of the active looper.
    pub open spec fn with_active(self, looper: LooperModel<S>) -> EngineModel<S> {
        EngineModel { loopers: self.loopers.update(self.active, looper), ..self }
    }

    /// The state of the active looper.
    pub open spec fn active_looper(self) -> LooperModel<S> {
        self.loopers[self.active]
    }

    /// What a MIDI message does. Playing and pausing starts the time over; an
    /// added looper becomes the active one.
    pub open spec fn after_event(self, bytes: Seq<u8>) -> EngineModel<S> {
        if strikes(bytes, RECORD_NOTE) {
            self.with_active(self.active_looper().after_record_note())
        } else if strikes(bytes, PLAY_NOTE) {
            EngineModel { time: 0, ..self.with_active(self.active_looper().after_play_note()) }
        } else if strikes(bytes, ADD_NOTE) {
            EngineModel {
                loopers: self.loopers.push(LooperModel::fresh(self.id_counter as u32)),
                active: self.loopers.len() as int,
                id_counter: self.id_counter + 1,
                ..self
            }
        } else {
            self
        }
    }

    /// What some MIDI messages do, in order.
    pub open spec fn after_events(self, events: Seq<Vec<u8>>) -> EngineModel<S>
        decreases events.len(),
    {
        if events.len() == 0 {
            self
        } else {
            self.after_events(events.drop_last()).after_event(events.last()@)
        }
    }

    /// What hearing something does.
    pub open spec fn after_sound(self, loud: bool) -> EngineModel<S> {
        if loud {
            self.with_active(self.active_looper().after_sound())
        } else {
            self
        }
    }

    /// What a period of audio does.
    pub open spec fn after_frames(self, left: Seq<S>, right: Seq<S>) -> EngineModel<S> {
        EngineModel {
            time: self.time + left.len(),
            ..self.with_active(self.active_looper().after_frames(left, right))
        }
    }

    /// What some periods of audio do, in order.
    pub open spec fn after_periods(self, periods: Seq<LayerModel<S>>) -> EngineModel<S>
        decreases periods.len(),
    {
        if periods.len() == 0 {
            self
        } else {
            self.after_periods(periods.drop_last()).after_frames(
                periods.last().left,
                periods.last().right,
            )
        }
    }

    /// How many layers are heard: those of the active looper while it plays.
    pub open spec fn audible(self) -> nat {
        if self.active_looper().play_mode == PlayMode::Playing {
            self.active_looper().layers.len()
        } else {
            0
        }
    }

    /// The sample of a channel of a recording that is heard at a frame of the
    /// period: recordings repeat.
    pub open spec fn heard(self, samples: Seq<S>, frame: int) -> S {
        samples[(self.time + frame) % (samples.len() as int)]
    }

    /// What the display is told about the looper at a position.
    pub open spec fn loop_state(self, i: int) -> LoopState {
        let l = self.loopers[i];
        LoopState {
            id: l.id,
            record_mode: l.record_mode,
            play_mode: l.play_mode,
            time: if l.length() > 0 && l.play_mode == PlayMode::Playing {
                (self.time % l.length()) as usize
            } else {
                0
            },
            length: l.length() as usize,
            active: i == self.active,
        }
    }
}

impl<S> View for Engine<S> {
    type V = EngineModel<S>;

    closed spec fn view(&self) -> EngineModel<S> {
        EngineModel {
            time: self.time as nat,
            loopers: self.loopers@.map_values(|l: Looper<S>| l@),
            active: self.active as int,
            id_counter: self.id_counter as nat,
        }
    }
}

impl<S: Copy> Engine<S> {
    /// An engine with one looper.
    pub fn new() -> (r: Engine<S>)
        ensures
            r@ == (EngineModel::<S> {
                time: 0,
                loopers: seq![LooperModel::fresh(0)],
                active: 0,
                id_counter: 1,
            }),
            r@.wf(),
    {
        let mut loopers: Vec<Looper<S>> = Vec::new();
        loopers.push(Looper::new(0));
        let r = Engine { time: 0, loopers, active: 0, id_counter: 1 };
        assert(r@.loopers =~= seq![LooperModel::fresh(0)]);
        r
    }

    /// How many more loopers can be numbered.
    pub fn free_ids(&self) -> (r: u32)
        ensures
            r == u32::MAX - self@.id_counter,
    {
        u32::MAX - self.id_counter
    }

    fn handle_event(&mut self, bytes: &Vec<u8>)
        requires
            old(self)@.wf(),
            strikes(bytes@, ADD_NOTE) ==> old(self)@.id_counter < u32::MAX,
        ensures
            final(self)@ == old(self)@.after_event(bytes@),
            final(self)@.wf(),
    {
        let ghost before = self.loopers@;
        assert(self@.loopers.len() == before.len());
        if bytes.len() == 3 && bytes[0] == NOTE_ON {
            if bytes[1] == RECORD_NOTE {
                let at: usize = self.active;
                self.loopers[at].record_note();
                assert(self.loopers@ =~= before.update(at as int, self.loopers@[at as int]));
                assert(self@.loopers =~= old(self)@.after_event(bytes@).loopers);
            } else if bytes[1] == PLAY_NOTE {
                let at: usize = self.active;
                self.loopers[at].play_note();
                self.time = 0;
                assert(self.loopers@ =~= before.update(at as int, self.loopers@[at as int]));
                assert(self@.loopers =~= old(self)@.after_event(bytes@).loopers);
            } else if bytes[1] == ADD_NOTE {
                self.loopers.push(Looper::new(self.id_counter));
                self.id_counter = self.id_counter + 1;
                self.active = self.loopers.len() - 1;
                assert(self@.loopers =~= old(self)@.after_event(bytes@).loopers);
            }
        }
    }

    /// Takes in the MIDI messages of a period.
    pub fn update_states(&mut self, events: &Vec<Vec<u8>>)
        requires
            old(self)@.wf(),
            old(self)@.id_counter + additions(events@) <= u32::MAX,
        ensures
            final(self)@ == old(self)@.after_events(events@),
            final(self)@.wf(),
    {
        let mut i: usize = 0;
        assert(events@.take(0) =~= Seq::<Vec<u8>>::empty());
        while i < events.len()
            invariant
                i <= events.len(),
                self@ == old(self)@.after_events(events@.take(i as int)),
                self@.wf(),
                self@.id_counter == old(self)@.id_counter + additions(events@.take(i as int)),
                old(self)@.id_counter + additions(events@) <= u32::MAX,
            decreases events.len() - i,
        {
            proof {
                assert(events@.take(i + 1).drop_last() =~= events@.take(i as int));
                lemma_additions(events@, i + 1);
            }
            self.handle_event(&events[i]);
            i = i + 1;
        }
        assert(events@.take(i as int) =~= events@);
    }

    /// Takes note of whether the input can be heard.
    pub fn hear(&mut self, loud: bool)
        requires
            old(self)@.wf(),
        ensures
            final(self)@ == old(self)@.after_sound(loud),
            final(self)@.wf(),
    {
        if loud {
            let ghost before = self.loopers@;
            assert(self@.loopers.len() == before.len());
            let at: usize = self.active;
            self.loopers[at].sound();
            assert(self.loopers@ =~= before.update(at as int, self.loopers@[at as int]));
            assert(self@.loopers =~= old(self)@.after_sound(loud).loopers);
        }
    }

    /// How many layers are heard.
    pub fn audible(&self) -> (r: usize)
        requires
            self@.wf(),
        ensures
            r == self@.audible(),
    {
        assert(self@.loopers.len() == self.loopers@.len());
        let looper = &self.loopers[self.active];
        assert(self@.active_looper() == looper@);
        assert(looper@.layers.len() == looper.layers@.len());
        if looper.play_mode == PlayMode::Playing {
            looper.layers.len()
        } else {
            0
        }
    }

    /// The samples of a layer, left and right, that are heard at a frame of the
    /// period.
    pub fn heard(&self, layer: usize, frame: usize) -> (r: (S, S))
        requires
            self@.wf(),
            layer < self@.active_looper().layers.len(),
            self@.active_looper().layers[layer as int].left.len() > 0,
            self@.active_looper().layers[layer as int].right.len() > 0,
            self@.time + frame <= usize::MAX,
        ensures
            r.0 == self@.heard(self@.active_looper().layers[layer as int].left, frame as int),
            r.1 == self@.heard(self@.active_looper().layers[layer as int].right, frame as int),
    {
        assert(self@.loopers.len() == self.loopers@.len());
        let looper = &self.loopers[self.active];
        assert(self@.active_looper() == looper@);
        assert(looper@.layers.len() == looper.layers@.len());
        assert(looper@.layers[layer as int] == looper.layers@[layer as int]@);
        let l = &looper.layers[layer];
        let now: usize = self.time + frame;
        (l.left[now % l.left.len()], l.right[now % l.right.len()])
    }

    /// Whether every layer that is heard holds something, on both sides.
    pub fn all_heard_filled(&self) -> (r: bool)
        requires
            self@.wf(),
        ensures
            r == (forall|k: int|
                0 <= k < self@.audible() ==> (#[trigger] self@.active_looper().layers[k]).left.len()
                    > 0 && self@.active_looper().layers[k].right.len() > 0),
    {
        let n: usize = self.audible();
        assert(self@.loopers.len() == self.loopers@.len());
        let looper = &self.loopers[self.active];
        assert(self@.active_looper() == looper@);
        assert(looper@.layers.len() == looper.layers@.len());
        let mut k: usize = 0;
        while k < n
            invariant
                k <= n <= looper.layers@.len(),
                n == self@.audible(),
                self@.active_looper() == looper@,
                looper@.layers.len() == looper.layers@.len(),
                forall|j: int|
                    0 <= j < k ==> (#[trigger] self@.active_looper().layers[j]).left.len() > 0
                        && self@.active_looper().layers[j].right.len() > 0,
            decreases n - k,
        {
            assert(looper@.layers[k as int] == looper.layers@[k as int]@);
            if looper.layers[k].left.len() == 0 || looper.layers[k].right.len() == 0 {
                assert(self@.active_looper().layers[k as int] == looper.layers@[k as int]@);
                return false;
            }
            k = k + 1;
        }
        true
    }

    /// How many frames the engine has counted since it last started over.
    pub fn time(&self) -> (r: usize)
        ensures
            r == self@.time,
    {
        self.time
    }

    /// Ends a period in which `left` and `right` were put out: records them if
    /// need be, moves on in time, and sums up the loopers for display.
    pub fn process(&mut self, left: &Vec<S>, right: &Vec<S>) -> (r: State)
        requires
            old(self)@.wf(),
            old(self)@.time + left@.len() <= usize::MAX,
        ensures
            final(self)@ == old(self)@.after_frames(left@, right@),
            final(self)@.wf(),
            r.loops@ == Seq::new(
                final(self)@.loopers.len(),
                |i: int| final(self)@.loop_state(i),
            ),
    {
        let ghost before = self.loopers@;
        assert(self@.loopers.len() == before.len());
        let at: usize = self.active;
        self.loopers[at].record(left, right);
        assert(self.loopers@ =~= before.update(at as int, self.loopers@[at as int]));
        self.time = self.time + left.len();
        assert(self@.loopers =~= old(self)@.after_frames(left@, right@).loopers);
        let mut loops: Vec<LoopState> = Vec::new();
        let mut i: usize = 0;
        while i < self.loopers.len()
            invariant
                i <= self.loopers.len(),
                self@ == old(self)@.after_frames(left@, right@),
                self@.wf(),
                loops@ =~= Seq::new(i as nat, |j: int| self@.loop_state(j)),
            decreases self.loopers.len() - i,
        {
            let l = &self.loopers[i];
            assert(self@.loopers[i as int] == l@);
            assert(l@.layers.len() == l.layers@.len());
            let length: usize = if l.layers.len() > 0 {
                assert(l@.layers[0] == l.layers@[0]@);
                l.layers[0].left.len()
            } else {
                0
            };
            let time: usize = if length > 0 && l.play_mode == PlayMode::Playing {
                self.time % length
            } else {
                0
            };
            loops.push(
                LoopState {
                    id: l.id,
                    record_mode: l.record_mode,
                    play_mode: l.play_mode,
                    time,
                    length,
                    active: i == self.active,
                },
            );
            i = i + 1;
        }
        State { loops }
    }
}

proof fn lemma_additions(events: Seq<Vec<u8>>, n: int)
    requires
        0 <= n <= events.len(),
    ensures
        additions(events.take(n)) <= additions(events),
    decreases events.len() - n,
{
    if n < events.len() {
        lemma_additions(events, n + 1);
        assert(events.take(n + 1).drop_last() =~= events.take(n));
    } else {
        assert(events.take(n) =~= events);
    }
}

/// The periods of a recording, one after the other.
pub open spec fn spliced<S>(periods: Seq<LayerModel<S>>) -> LayerModel<S>
    decreases periods.len(),
{
    if periods.len() == 0 {
        LayerModel::blank()
    } else {
        let before = spliced(periods.drop_last());
        LayerModel {
            left: before.left + periods.last().left,
            right: before.right + periods.last().right,
        }
    }
}

proof fn lemma_recorded<S>(engine: EngineModel<S>, periods: Seq<LayerModel<S>>)
    requires
        engine.wf(),
        engine.active_looper().record_mode == RecordMode::Record,
        engine.active_looper().layers.len() == 0,
        periods.len() > 0,
    ensures
        ({
            let after = engine.after_periods(periods);
            &&& after.wf()
            &&& after.active_looper() == (LooperModel {
                layers: seq![spliced(periods)],
                ..engine.active_looper()
            })
        }),
    decreases periods.len(),
{
    let earlier = periods.drop_last();
    let after = engine.after_periods(periods);
    if earlier.len() > 0 {
        lemma_recorded(engine, earlier);
    } else {
        assert(engine.after_periods(earlier) == engine);
        assert(spliced(earlier) == LayerModel::<S>::blank());
    }
    assert(after == engine.after_periods(earlier).after_frames(
        periods.last().left,
        periods.last().right,
    ));
    assert(after.active_looper().layers[0] =~= spliced(periods));
    assert(after.active_looper().layers =~= seq![spliced(periods)]);
}

/// What is recorded is what is played: a looper that was made ready, heard
/// something, recorded some periods and was then set playing, plays the frames
/// of these periods in order, over and over, from the moment it is set playing.
pub proof fn law_plays_what_was_recorded<S>(
    engine: EngineModel<S>,
    periods: Seq<LayerModel<S>>,
    play: Seq<u8>,
    frame: int,
)
    requires
        engine.wf(),
        engine.active_looper().record_mode == RecordMode::Ready,
        engine.active_looper().play_mode == PlayMode::Paused,
        strikes(play, PLAY_NOTE),
        spliced(periods).left.len() > 0,
        spliced(periods).right.len() > 0,
        0 <= frame,
    ensures
        ({
            let played = engine.after_sound(true).after_periods(periods).after_event(play);
            let sound = spliced(periods);
            &&& played.audible() == 1
            &&& played.active_looper().layers[0] == sound
            &&& played.heard(sound.left, frame) == sound.left[frame % (sound.left.len() as int)]
            &&& played.heard(sound.right, frame) == sound.right[frame % (sound.right.len() as int)]
        }),
{
    lemma_recorded(engine.after_sound(true), periods);
}

} // verus!
