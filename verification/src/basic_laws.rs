//! What the small pieces mean: parts, queues, names, files and ports.

use vstd::prelude::*;

use crate::api::{Part, PartSet};
use crate::buffer::fitting;
use crate::channel::{
    command_link, delivery, log_link, tried, Attempt, Delivery, Outgoing, SendFailure,
};
use crate::command_laws::{at_most_128, on_in, place, plays_in};
use crate::config::{ConfigFile, FollowUp, MappingFile};
use crate::host::{after_response, asked, ClientChangeResponse};
use crate::looper::{lemma_positions, positions, Looper, Selector};
use crate::midi::{
    log_delivery, log_outcome, LogMessage, MidiOutReceiver, MidiOutSender, SendLogError,
};
use crate::ports::{decimal, digit, port_text, ClientChange, LooperPorts};
use crate::trigger::{latest, Trigger};

verus! {

// ---- Parts and loopers ----

/// The parts stand in the order A, B, C, D and around: the next part is one place
/// further on, and the previous part is one place back.
pub proof fn law_order_of_parts(part: Part, parts: PartSet)
    ensures
        part.spec_index() == place(part),
        place(part.spec_next()) == (place(part) + 1) % 4,
        place(part.spec_previous()) == (place(part) + 3) % 4,
        parts.has(part) == on_in(parts, part),
{
}

/// Loopers are found just where they are: every position that is given is that
/// of a looper of the wanted sort, every such looper is given, and the positions
/// ascend.
pub proof fn law_loopers_are_found(loopers: Seq<Looper>, id: u32, part: Part, i: int)
    requires
        loopers.len() <= usize::MAX,
        0 <= i < loopers.len(),
    ensures
        positions(loopers, Selector::Any).contains(i as usize),
        positions(loopers, Selector::WithId(id)).contains(i as usize) <==> loopers[i].id == id,
        positions(loopers, Selector::Live).contains(i as usize) <==> !loopers[i].deleted,
        positions(loopers, Selector::LiveIn(part)).contains(i as usize) <==> plays_in(
            loopers[i],
            part,
        ),
        forall|s: Selector, j: int, k: int|
            0 <= j < k < positions(loopers, s).len() ==> #[trigger] positions(loopers, s)[j]
                < #[trigger] positions(loopers, s)[k],
        forall|s: Selector, k: int|
            0 <= k < positions(loopers, s).len() ==> #[trigger] positions(loopers, s)[k]
                < loopers.len(),
{
    assert forall|s: Selector, j: int, k: int|
        0 <= j < k < positions(loopers, s).len() implies #[trigger] positions(loopers, s)[j]
        < #[trigger] positions(loopers, s)[k] by {
        lemma_positions(loopers, s);
    }
    assert forall|s: Selector, k: int|
        0 <= k < positions(loopers, s).len() implies #[trigger] positions(loopers, s)[k]
        < loopers.len() by {
        lemma_positions(loopers, s);
    }
    lemma_found(loopers, Selector::Any, i);
    lemma_found(loopers, Selector::WithId(id), i);
    lemma_found(loopers, Selector::Live, i);
    lemma_found(loopers, Selector::LiveIn(part), i);
}

proof fn lemma_found(loopers: Seq<Looper>, selector: Selector, i: int)
    requires
        loopers.len() <= usize::MAX,
        0 <= i < loopers.len(),
    ensures
        positions(loopers, selector).contains(i as usize) <==> selector.picks(loopers[i]),
{
    lemma_positions(loopers, selector);
    let at = positions(loopers, selector);
    if at.contains(i as usize) {
        let k = at.index_of(i as usize);
        assert(at[k] == i as usize);
        assert(selector.picks(loopers[at[k] as int]));
    }
}

/// Of the commands that wait, the last 128 are kept.
pub proof fn law_queue_keeps_the_latest(triggers: Seq<Trigger>)
    ensures
        latest(triggers) == at_most_128(triggers),
{
    assert(latest(triggers) =~= at_most_128(triggers));
}

// ---- Messages ----

/// A message takes as much as finds room in 256 bytes.
pub proof fn law_room_in_a_message(held: nat, wanted: nat)
    requires
        held <= 256,
    ensures
        fitting(held, wanted) <= wanted,
        held + fitting(held, wanted) <= 256,
        fitting(held, wanted) < wanted ==> held + fitting(held, wanted) == 256,
{
}

/// What became of a message is told as it was: a full queue would block, a gone
/// receiver is a broken pipe, and the message that was not sent comes back.
pub proof fn law_failures_keep_their_reason(message: LogMessage)
    ensures
        log_outcome(Ok(())) == Ok::<(), SendLogError>(()),
        log_outcome(Err(SendFailure::Full(message))) == Err::<(), SendLogError>(
            SendLogError::WouldBlock(message),
        ),
        log_outcome(Err(SendFailure::Disconnected(message))) == Err::<(), SendLogError>(
            SendLogError::BrokenPipe(message),
        ),
        delivery(Ok::<(), SendFailure<LogMessage>>(())) == Delivery::Taken,
        delivery(Err::<(), SendFailure<LogMessage>>(SendFailure::Full(message))) == Delivery::Full,
        delivery(Err::<(), SendFailure<LogMessage>>(SendFailure::Disconnected(message)))
            == Delivery::Disconnected,
        log_delivery(Ok(())) == Delivery::Taken,
        log_delivery(Err(SendLogError::WouldBlock(message))) == Delivery::Full,
        log_delivery(Err(SendLogError::BrokenPipe(message))) == Delivery::Disconnected,
        SendFailure::Full(message).message() == message,
        SendFailure::Disconnected(message).message() == message,
        SendLogError::WouldBlock(message).unsent() == message,
        SendLogError::BrokenPipe(message).unsent() == message,
        SendLogError::WouldBlock(message).reason() == "queue full"@,
        SendLogError::BrokenPipe(message).reason() == "queue disconnected"@,
{
}

// ---- Files ----

/// The files in the configuration directory go by these names.
pub proof fn law_file_names()
    ensures
        ConfigFile::LastSession.spec_name() == ".last-session"@,
        ConfigFile::MidiInMappings.spec_name() == "midi_in_mappings.tsv"@,
        ConfigFile::MidiOutMappings.spec_name() == "midi_out_mappings.tsv"@,
{
}

/// A file of mappings adds just the mappings that it holds, and is to be created
/// just where it is missing.
pub proof fn law_mapping_files<M>(file: MappingFile<M>)
    ensures
        file is Loaded ==> file.mappings() == file->Loaded_0@,
        !(file is Loaded) ==> file.mappings().len() == 0,
        file.follow_up() == FollowUp::CreateEmpty <==> file is NotFound,
{
}

// ---- Ports ----

/// Ports are asked for just where a looper has none, and given back just where it
/// has them, both at once and the left one first.
pub proof fn law_ports_are_asked_for_once<P>(ports: LooperPorts<P>, id: u32)
    ensures
        ports@.contains_key(id) ==> {
            &&& ports.to_add(id) is None
            &&& ports.to_remove(id) == Some(
                ClientChange::RemovePort(id, ports@[id].0, ports@[id].1),
            )
        },
        !ports@.contains_key(id) ==> {
            &&& ports.to_add(id) == Some(ClientChange::<P>::AddPort(id))
            &&& ports.to_remove(id) is None
        },
{
}

/// When ports were opened for a looper, it has just these, and no other looper's
/// change; without an answer none do.
pub proof fn law_answers_bring_ports<P>(
    ports: Map<u32, (P, P)>,
    id: u32,
    left: P,
    right: P,
    other: u32,
)
    ensures
        ({
            let after = after_response(
                ports,
                Some(ClientChangeResponse::PortAdded(id, left, right)),
            );
            &&& after.contains_key(id)
            &&& after[id] == (left, right)
            &&& other != id ==> after.contains_key(other) == ports.contains_key(other)
            &&& other != id ==> after[other] == ports[other]
        }),
        after_response(ports, None) == ports,
{
}

/// The number that some decimal digits stand for.
pub open spec fn value(digits: Seq<char>) -> int
    decreases digits.len(),
{
    if digits.len() == 0 {
        0
    } else {
        10 * value(digits.drop_last()) + (digits.last() as int - '0' as int)
    }
}

/// A number is written in decimal digits that stand for it, and without leading
/// zeros.
pub proof fn law_decimal_digits(n: nat)
    ensures
        value(decimal(n)) == n,
        decimal(n).len() > 0,
        n > 0 ==> decimal(n)[0] != '0',
        forall|i: int| 0 <= i < decimal(n).len() ==> '0' <= #[trigger] decimal(n)[i] <= '9',
    decreases n,
{
    reveal_with_fuel(value, 2);
    let last = digit(n % 10);
    assert(last.len() == 1);
    assert(last[0] as int - '0' as int == n % 10);
    assert('0' <= last[0] <= '9');
    if n >= 10 {
        let before = decimal(n / 10);
        law_decimal_digits(n / 10);
        assert(decimal(n) == before + last);
        assert(decimal(n).drop_last() =~= before);
        assert(decimal(n).last() == last[0]);
        assert(decimal(n)[0] == before[0]);
        assert(10 * (n / 10) + n % 10 == n);
        assert forall|i: int| 0 <= i < decimal(n).len() implies '0' <= #[trigger] decimal(n)[i]
            <= '9' by {
            if i < before.len() {
                assert(decimal(n)[i] == before[i]);
            } else {
                assert(decimal(n)[i] == last[0]);
            }
        }
    } else {
        assert(n % 10 == n);
        assert(decimal(n) == last);
        assert(decimal(n).drop_last() =~= Seq::<char>::empty());
    }
}

/// The output ports of a looper are called by the number of the looper and their
/// side.
pub proof fn law_port_names(id: u32)
    ensures
        port_text(id, false) == "loop"@ + decimal(id as nat) + "_out_l"@,
        port_text(id, true) == "loop"@ + decimal(id as nat) + "_out_r"@,
{
}

// ---- Channels ----

/// What is recorded of a send is one attempt, behind those before it, with the
/// message and what became of it; the end stays the same.
pub proof fn law_one_attempt_is_recorded<T>(
    before: Outgoing<T>,
    after: Outgoing<T>,
    message: T,
    outcome: Delivery,
)
    ensures
        tried(before, after, message, outcome) <==> {
            &&& after.sender() == before.sender()
            &&& after.attempts().len() == before.attempts().len() + 1
            &&& after.attempts().drop_last() == before.attempts()
            &&& after.attempts().last().message == message
            &&& after.attempts().last().outcome == outcome
        },
{
    if tried(before, after, message, outcome) {
        assert(after.attempts().drop_last() =~= before.attempts());
    }
    if after.attempts().len() == before.attempts().len() + 1 && after.attempts().drop_last()
        == before.attempts() && after.attempts().last().message == message
        && after.attempts().last().outcome == outcome {
        assert(after.attempts() =~= before.attempts().push(Attempt { message, outcome }));
    }
}

/// Where there is a change to ask for, the worker is asked for it once, and a
/// request that it does not get comes back; else it is not asked.
pub proof fn law_worker_is_asked_once<P>(
    before: Outgoing<ClientChange<P>>,
    after: Outgoing<ClientChange<P>>,
    change: ClientChange<P>,
    r: Result<(), SendFailure<ClientChange<P>>>,
)
    ensures
        asked(before, after, Some(change), r) ==> {
            &&& tried(before, after, change, delivery(r))
            &&& r is Err ==> r->Err_0.message() == change
        },
        asked(before, after, None, r) ==> after == before && r is Ok,
{
}

/// A log message is sent once where there is somebody to send it to, and comes
/// back if it does not go out; else nothing happens.
pub proof fn law_log_is_sent_once(
    before: MidiOutSender,
    after: MidiOutSender,
    message: LogMessage,
    r: Result<(), SendLogError>,
)
    requires
        MidiOutSender::logged(before, after, message, r),
    ensures
        before.log_end() is Some ==> {
            &&& after.log_end() is Some
            &&& tried(before.log_end()->0, after.log_end()->0, message, log_delivery(r))
            &&& r is Err ==> r->Err_0.unsent() == message
        },
        before.log_end() is None ==> after.log_end() is None && r is Ok,
{
}

/// A sender reaches a receiver over a channel for 100 commands and one for 10 log
/// messages.
pub proof fn law_sizes_of_the_channels(sender: MidiOutSender, receiver: MidiOutReceiver)
    requires
        sender.reaches(receiver),
    ensures
        sender.command_end() is Some,
        sender.log_end() is Some,
        command_link(sender.command_end()->0.sender(), receiver.cmd_channel) == Some(100nat),
        log_link(sender.log_end()->0.sender(), receiver.log_channel) == Some(10nat),
{
}

} // verus!
