//! What the three notes, the sound and the frames mean to the small engine.

use vstd::prelude::*;

use crate::note_engine::{additions, EngineModel, PlayMode, RecordMode};

verus! {

/// Whether a MIDI message strikes a note on the first channel.
pub open spec fn struck(bytes: Seq<u8>, note: u8) -> bool {
    bytes.len() == 3 && bytes[0] == 0x90 && bytes[1] == note
}

/// Whether two engines are alike but for the looper that is active in the first.
pub open spec fn only_active_differs<S>(a: EngineModel<S>, b: EngineModel<S>) -> bool {
    &&& b.active == a.active
    &&& b.id_counter == a.id_counter
    &&& b.loopers.len() == a.loopers.len()
    &&& forall|i: int| 0 <= i < a.loopers.len() && i != a.active ==> b.loopers[i] == a.loopers[i]
    &&& b.loopers[a.active].id == a.loopers[a.active].id
}

/// Only the notes 60, 62 and 64 mean anything.
pub proof fn law_other_messages_mean_nothing<S>(engine: EngineModel<S>, bytes: Seq<u8>)
    requires
        !struck(bytes, 60),
        !struck(bytes, 62),
        !struck(bytes, 64),
    ensures
        engine.after_event(bytes) == engine,
{
}

/// Note 60 makes the active looper ready to record; one that plays a recording
/// gets a blank layer to overdub instead. Time goes on.
pub proof fn law_note_to_record<S>(engine: EngineModel<S>, bytes: Seq<u8>)
    requires
        engine.wf(),
        struck(bytes, 60),
    ensures
        ({
            let e = engine.after_event(bytes);
            let before = engine.loopers[engine.active];
            let after = e.loopers[engine.active];
            let overdubs = before.play_mode == PlayMode::Playing && before.layers.len() > 0;
            &&& only_active_differs(engine, e)
            &&& e.time == engine.time
            &&& after.play_mode == before.play_mode
            &&& !overdubs ==> after.record_mode == RecordMode::Ready && after.layers
                == before.layers
            &&& overdubs ==> {
                &&& after.record_mode == RecordMode::Overdub
                &&& after.layers.len() == before.layers.len() + 1
                &&& after.layers.drop_last() == before.layers
                &&& after.layers.last().left.len() == 0
                &&& after.layers.last().right.len() == 0
            }
        }),
{
    let before = engine.loopers[engine.active];
    let after = engine.after_event(bytes).loopers[engine.active];
    if before.play_mode == PlayMode::Playing && before.layers.len() > 0 {
        assert(after.layers.drop_last() =~= before.layers);
    }
}

/// Note 62 ends any recording, plays what is paused and pauses what plays, and
/// starts the time over.
pub proof fn law_note_to_play<S>(engine: EngineModel<S>, bytes: Seq<u8>)
    requires
        engine.wf(),
        struck(bytes, 62),
    ensures
        ({
            let e = engine.after_event(bytes);
            let before = engine.loopers[engine.active];
            let after = e.loopers[engine.active];
            &&& only_active_differs(engine, e)
            &&& e.time == 0
            &&& after.record_mode == RecordMode::Off
            &&& after.play_mode != before.play_mode
            &&& after.layers == before.layers
        }),
{
}

/// Note 64 adds a looper under the next id, which holds nothing, neither plays
/// nor records, and is active from then on. The others stay as they are.
pub proof fn law_note_to_add<S>(engine: EngineModel<S>, bytes: Seq<u8>)
    requires
        engine.id_counter <= u32::MAX,
        struck(bytes, 64),
    ensures
        ({
            let e = engine.after_event(bytes);
            let added = e.loopers.last();
            &&& e.loopers.len() == engine.loopers.len() + 1
            &&& e.loopers.drop_last() == engine.loopers
            &&& e.active == engine.loopers.len()
            &&& e.id_counter == engine.id_counter + 1
            &&& e.time == engine.time
            &&& added.id == engine.id_counter
            &&& added.layers.len() == 0
            &&& added.play_mode == PlayMode::Paused
            &&& added.record_mode == RecordMode::Off
        }),
{
    assert(engine.after_event(bytes).loopers.drop_last() =~= engine.loopers);
}

/// Messages take effect one after the other.
pub proof fn law_messages_in_order<S>(
    engine: EngineModel<S>,
    events: Seq<Vec<u8>>,
    next: Vec<u8>,
)
    ensures
        engine.after_events(Seq::empty()) == engine,
        engine.after_events(events.push(next)) == engine.after_events(events).after_event(next@),
{
    assert(events.push(next).drop_last() =~= events);
}

/// A looper that is ready begins to record when something is heard, and forgets
/// what it held. Nothing else comes of hearing something, and nothing of hearing
/// nothing.
pub proof fn law_sound_starts_recording<S>(engine: EngineModel<S>)
    requires
        engine.wf(),
    ensures
        engine.after_sound(false) == engine,
        ({
            let e = engine.after_sound(true);
            let before = engine.loopers[engine.active];
            let after = e.loopers[engine.active];
            &&& only_active_differs(engine, e)
            &&& e.time == engine.time
            &&& after.play_mode == before.play_mode
            &&& before.record_mode == RecordMode::Ready ==> after.record_mode == RecordMode::Record
                && after.layers.len() == 0
            &&& before.record_mode != RecordMode::Ready ==> after == before
        }),
{
}

/// A looper that records keeps every frame that is put out, behind those that it
/// has, in its first layer; any other looper keeps nothing. Time moves on by the
/// frames.
pub proof fn law_frames_are_kept<S>(engine: EngineModel<S>, left: Seq<S>, right: Seq<S>)
    requires
        engine.wf(),
    ensures
        ({
            let e = engine.after_frames(left, right);
            let before = engine.loopers[engine.active];
            let after = e.loopers[engine.active];
            &&& only_active_differs(engine, e)
            &&& e.time == engine.time + left.len()
            &&& after.play_mode == before.play_mode
            &&& after.record_mode == before.record_mode
            &&& before.record_mode != RecordMode::Record ==> after.layers == before.layers
            &&& before.record_mode == RecordMode::Record && before.layers.len() == 0 ==> {
                &&& after.layers.len() == 1
                &&& after.layers[0].left == left
                &&& after.layers[0].right == right
            }
            &&& before.record_mode == RecordMode::Record && before.layers.len() > 0 ==> {
                &&& after.layers.len() == before.layers.len()
                &&& after.layers[0].left == before.layers[0].left + left
                &&& after.layers[0].right == before.layers[0].right + right
                &&& forall|k: int|
                    0 < k < before.layers.len() ==> after.layers[k] == before.layers[k]
            }
        }),
{
    let after = engine.after_frames(left, right).loopers[engine.active];
    if engine.loopers[engine.active].record_mode == RecordMode::Record && engine.loopers[engine.active].layers.len()
        == 0 {
        assert(after.layers[0].left =~= left);
        assert(after.layers[0].right =~= right);
    }
}

/// What plays is heard over and over: all layers of the active looper while it
/// plays, each from its beginning when the time starts over, frame by frame, and
/// from the beginning again behind its end.
pub proof fn law_layers_repeat<S>(engine: EngineModel<S>, samples: Seq<S>, frame: int)
    requires
        engine.wf(),
        samples.len() > 0,
        frame >= 0,
    ensures
        engine.loopers[engine.active].play_mode == PlayMode::Playing ==> engine.audible()
            == engine.loopers[engine.active].layers.len(),
        engine.loopers[engine.active].play_mode == PlayMode::Paused ==> engine.audible() == 0,
        engine.time == 0 && frame < samples.len() ==> engine.heard(samples, frame)
            == samples[frame],
        engine.heard(samples, frame + samples.len()) == engine.heard(samples, frame),
        (EngineModel { time: engine.time + 1, ..engine }).heard(samples, frame) == engine.heard(
            samples,
            frame + 1,
        ),
{
    let n = samples.len() as int;
    vstd::arithmetic::div_mod::lemma_mod_add_multiples_vanish(engine.time + frame, n);
    assert(n + (engine.time + frame) == engine.time + (frame + n));
    if engine.time == 0 && frame < n {
        vstd::arithmetic::div_mod::lemma_small_mod(frame as nat, n as nat);
    }
}

/// The display is told of each looper as it is: how long its first layer is, how
/// far it has played into it while it plays, and whether it is the active one.
pub proof fn law_display_tells_the_truth<S>(engine: EngineModel<S>, i: int)
    requires
        0 <= i < engine.loopers.len(),
        engine.loopers[i].layers.len() > 0 ==> engine.loopers[i].layers[0].left.len()
            <= usize::MAX,
    ensures
        ({
            let l = engine.loopers[i];
            let shown = engine.loop_state(i);
            &&& shown.id == l.id
            &&& shown.record_mode == l.record_mode
            &&& shown.play_mode == l.play_mode
            &&& shown.active == (engine.active == i)
            &&& l.layers.len() == 0 ==> shown.length == 0 && shown.time == 0
            &&& l.layers.len() > 0 ==> shown.length == l.layers[0].left.len()
            &&& l.play_mode == PlayMode::Paused ==> shown.time == 0
            &&& l.play_mode == PlayMode::Playing && shown.length > 0 ==> {
                &&& shown.time < shown.length
                &&& (engine.time - shown.time) % (shown.length as int) == 0
            }
        }),
{
    let l = engine.loopers[i];
    if l.layers.len() > 0 && l.layers[0].left.len() > 0 {
        let n = l.layers[0].left.len() as int;
        let t = engine.time as int;
        vstd::arithmetic::div_mod::lemma_mod_bound(t, n);
        vstd::arithmetic::div_mod::lemma_sub_mod_noop_right(t, t, n);
        vstd::arithmetic::div_mod::lemma_small_mod(0, n as nat);
        assert((t - t % n) % n == (t - t) % n);
    }
}

/// Just the messages that strike note 64 add a looper.
pub proof fn law_additions_are_counted(events: Seq<Vec<u8>>, next: Vec<u8>)
    ensures
        additions(Seq::empty()) == 0,
        struck(next@, 64) ==> additions(events.push(next)) == additions(events) + 1,
        !struck(next@, 64) ==> additions(events.push(next)) == additions(events),
{
    assert(events.push(next).drop_last() =~= events);
}

} // verus!
