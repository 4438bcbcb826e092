//! MIDI events, and what the engine reports to the MIDI output.

use arrayvec::ArrayVec;
use crossbeam_channel::Receiver;
use vstd::prelude::*;
use vstd::slice::slice_subrange;
use vstd::utf8::{decode_utf8, valid_utf8};

use crate::api::{EngineMode, EngineState, QuantizationMode};
use crate::buffer::{
    buffer_bytes, buffer_clear, buffer_clone, buffer_new, buffer_slice, buffer_write, decode_lossy,
    fitting, lossy_text,
};
use crate::channel::{
    command_channel, command_link, delivery, log_channel, log_link, tried, try_send, Delivery,
    Outgoing, SendFailure,
};

verus! {

/// What a MIDI output mapping reports.
#[derive(Clone, Copy, Debug, PartialEq, Eq, Structural)]
pub enum EngineSnapshotField {
    Unknown,
    EngineState,
    EngineMode,
    QuantizationMode,
    Metronome,
    ActiveLooper,
    Part,
    LooperCount,
    LooperMode,
}

fn same_text(a: &str, b: &str) -> (r: bool)
    ensures
        r == (a@ == b@),
{
    a.to_owned() == b.to_owned()
}

impl EngineSnapshotField {
    /// The field with a name; `Unknown` where no field has it.
    pub open spec fn named(name: Seq<char>) -> EngineSnapshotField {
        if name == "EngineState"@ {
            EngineSnapshotField::EngineState
        } else if name == "EngineMode"@ {
            EngineSnapshotField::EngineMode
        } else if name == "QuantizationMode"@ {
            EngineSnapshotField::QuantizationMode
        } else if name == "Metronome"@ {
            EngineSnapshotField::Metronome
        } else if name == "ActiveLooper"@ {
            EngineSnapshotField::ActiveLooper
        } else if name == "Part"@ {
            EngineSnapshotField::Part
        } else if name == "LooperCount"@ {
            EngineSnapshotField::LooperCount
        } else if name == "LooperMode"@ {
            EngineSnapshotField::LooperMode
        } else {
            EngineSnapshotField::Unknown
        }
    }

    /// Reads the name of a field. A name that no field has is no error: it
    /// reads as `Unknown`.
    pub fn from_str(field: &str) -> (r: Result<EngineSnapshotField, String>)
        ensures
            r == Ok::<EngineSnapshotField, String>(EngineSnapshotField::named(field@)),
    {
        Ok(
            if same_text(field, "EngineState") {
                EngineSnapshotField::EngineState
            } else if same_text(field, "EngineMode") {
                EngineSnapshotField::EngineMode
            } else if same_text(field, "QuantizationMode") {
                EngineSnapshotField::QuantizationMode
            } else if same_text(field, "Metronome") {
                EngineSnapshotField::Metronome
            } else if same_text(field, "ActiveLooper") {
                EngineSnapshotField::ActiveLooper
            } else if same_text(field, "Part") {
                EngineSnapshotField::Part
            } else if same_text(field, "LooperCount") {
                EngineSnapshotField::LooperCount
            } else if same_text(field, "LooperMode") {
                EngineSnapshotField::LooperMode
            } else {
                EngineSnapshotField::Unknown
            },
        )
    }
}

/// A MIDI event that the engine understands.
#[derive(Clone, Copy, Debug, PartialEq, Eq, Structural)]
pub enum MidiEvent {
    ControllerChange { channel: u8, controller: u8, data: u8 },
}

/// The three bytes of a controller change on a channel, counted from 1.
pub open spec fn controller_change(channel: u8, controller: u8, data: u8) -> Seq<u8> {
    seq![(176 + (channel - 1) % 16) as u8, controller, data]
}

impl MidiEvent {
    /// The event that some bytes stand for: a controller change is three bytes
    /// whose first holds 11 in its upper half and the channel, counted from 0,
    /// in its lower half.
    pub open spec fn parsed(bytes: Seq<u8>) -> Option<MidiEvent> {
        if bytes.len() == 3 && bytes[0] / 16 == 11 {
            Some(
                MidiEvent::ControllerChange {
                    channel: bytes[0] % 16,
                    controller: bytes[1],
                    data: bytes[2],
                },
            )
        } else {
            None
        }
    }

    /// Reads an event.
    pub fn from_bytes(bs: &[u8]) -> (r: Option<Self>)
        ensures
            r == MidiEvent::parsed(bs@),
    {
        if bs.len() == 3 {
            let status: u8 = bs[0];
            assert(status >> 4u8 == status / 16) by (bit_vector);
            assert(status & 15u8 == status % 16) by (bit_vector);
            if status >> 4 == 11 {
                return Some(
                    MidiEvent::ControllerChange {
                        channel: status & 15,
                        controller: bs[1],
                        data: bs[2],
                    },
                );
            }
        }
        None
    }

    /// The bytes of an event, whose channel is counted from 1.
    pub fn to_bytes(me: &MidiEvent) -> (r: [u8; 3])
        requires
            me->channel >= 1,
        ensures
            r@ == controller_change(me->channel, me->controller, me->data),
    {
        match me {
            MidiEvent::ControllerChange { channel, controller, data } => {
                let line: u8 = *channel - 1;
                assert(176u8 | (line & 15u8) == 176 + line % 16) by (bit_vector);
                let r: [u8; 3] = [176 | (line & 15), *controller, *data];
                assert(r@ =~= controller_change(*channel, *controller, *data));
                r
            },
        }
    }
}

/// What the MIDI output is told about the engine after each period.
#[derive(Clone, Copy, Debug, PartialEq, Eq, Structural)]
pub struct MidiEngineStateSnapshot {
    pub engine_state: EngineState,
    pub engine_mode: EngineMode,
    pub sync_mode: QuantizationMode,
    pub metronome: u8,
    pub active_looper: u8,
    pub part: u8,
    pub looper_count: u8,
}

/// A message to the MIDI output.
#[derive(Clone, Copy, Debug, PartialEq, Eq, Structural)]
pub enum MidiOutCommand {
    StateSnapshot(MidiEngineStateSnapshot),
}

#[derive(Clone, Copy, Debug, PartialEq, Eq, Structural)]
pub enum LogLevel {
    Info,
    Warn,
    Error,
}

/// What a log message holds: the bytes that found room, and how many were
/// offered.
pub struct LogText {
    pub bytes: Seq<u8>,
    pub offered: int,
}

impl LogText {
    /// Nothing written yet.
    pub open spec fn blank() -> LogText {
        LogText { bytes: Seq::empty(), offered: 0 }
    }

    /// The text after more bytes were offered.
    pub open spec fn and(self, s: Seq<u8>) -> LogText {
        LogText {
            bytes: self.bytes + s.take(fitting(self.bytes.len(), s.len()) as int),
            offered: self.offered + s.len(),
        }
    }

    /// Everything that was offered is there.
    pub open spec fn intact(self) -> bool {
        self.offered == self.bytes.len()
    }
}

/// A log message, written piece by piece into a buffer of fixed size.
pub struct LogMessage {
    buffer: ArrayVec<u8, 256>,
    len: usize,
    level: LogLevel,
}

impl LogMessage {
    /// What has been written.
    pub closed spec fn text(self) -> LogText {
        LogText { bytes: buffer_bytes(self.buffer), offered: self.len as int }
    }

    pub closed spec fn level(self) -> LogLevel {
        self.level
    }

    /// An empty message for information.
    pub fn new() -> (r: Self)
        ensures
            r.text() == LogText::blank(),
            r.level() == LogLevel::Info,
    {
        LogMessage { buffer: buffer_new(), len: 0, level: LogLevel::Info }
    }

    /// An empty message about an error.
    pub fn error() -> (r: Self)
        ensures
            r.text() == LogText::blank(),
            r.level() == LogLevel::Error,
    {
        LogMessage { buffer: buffer_new(), len: 0, level: LogLevel::Error }
    }

    /// Whether nothing was cut off from the message.
    pub fn is_complete(&self) -> (r: bool)
        ensures
            r == (self.text().offered <= self.text().bytes.len()),
    {
        self.len <= buffer_slice(&self.buffer).len()
    }

    /// Whether so many more bytes can be counted.
    pub fn can_count(&self, more: usize) -> (r: bool)
        ensures
            r == (self.text().offered + more <= usize::MAX),
    {
        more <= usize::MAX - self.len
    }

    /// The text of a message that nothing was cut off from; bytes that are not
    /// UTF-8 are replaced.
    pub fn as_str(&self) -> (r: String)
        requires
            self.text().offered <= self.text().bytes.len(),
        ensures
            r@ == lossy_text(self.text().bytes.take(self.text().offered)),
            valid_utf8(self.text().bytes.take(self.text().offered)) ==> r@ == decode_utf8(
                self.text().bytes.take(self.text().offered),
            ),
    {
        decode_lossy(slice_subrange(buffer_slice(&self.buffer), 0, self.len))
    }

    /// Appends as many of the bytes as there is room for, and returns how many.
    pub fn write(&mut self, s: &[u8]) -> (r: Result<usize, std::io::Error>)
        requires
            old(self).text().offered + s@.len() <= usize::MAX,
        ensures
            final(self).text() == old(self).text().and(s@),
            final(self).level() == old(self).level(),
            r is Ok,
            r->Ok_0 == fitting(old(self).text().bytes.len(), s@.len()),
    {
        self.len = self.len + s.len();
        buffer_write(&mut self.buffer, s)
    }

    /// Does nothing: what was written is in the buffer already.
    pub fn flush(&mut self) -> (r: Result<(), std::io::Error>)
        ensures
            *final(self) == *old(self),
            r is Ok,
    {
        Ok(())
    }
}

impl Clone for LogMessage {
    fn clone(&self) -> (r: Self)
        ensures
            r.text() == self.text(),
            r.level() == self.level(),
    {
        LogMessage { buffer: buffer_clone(&self.buffer), len: self.len, level: self.level }
    }
}

/// Why a log message did not go out, with the message.
pub enum SendLogError {
    /// The queue is full.
    WouldBlock(LogMessage),
    /// The queue is disconnected.
    BrokenPipe(LogMessage),
}

impl SendLogError {
    /// The message that was not sent.
    pub open spec fn unsent(self) -> LogMessage {
        match self {
            SendLogError::WouldBlock(m) => m,
            SendLogError::BrokenPipe(m) => m,
        }
    }

    /// The reason in words.
    pub open spec fn reason(self) -> Seq<char> {
        match self {
            SendLogError::WouldBlock(_) => "queue full"@,
            SendLogError::BrokenPipe(_) => "queue disconnected"@,
        }
    }

    /// The reason in words.
    pub fn message(&self) -> (r: String)
        ensures
            r@ == self.reason(),
    {
        match self {
            SendLogError::WouldBlock(_) => "queue full".to_owned(),
            SendLogError::BrokenPipe(_) => "queue disconnected".to_owned(),
        }
    }
}

/// What the outcome of a send means to the writer of a log.
pub open spec fn log_outcome(sent: Result<(), SendFailure<LogMessage>>) -> Result<
    (),
    SendLogError,
> {
    match sent {
        Ok(_) => Ok(()),
        Err(SendFailure::Full(m)) => Err(SendLogError::WouldBlock(m)),
        Err(SendFailure::Disconnected(m)) => Err(SendLogError::BrokenPipe(m)),
    }
}

/// What a result says became of a log message.
pub open spec fn log_delivery(r: Result<(), SendLogError>) -> Delivery {
    match r {
        Ok(_) => Delivery::Taken,
        Err(SendLogError::WouldBlock(_)) => Delivery::Full,
        Err(SendLogError::BrokenPipe(_)) => Delivery::Disconnected,
    }
}

/// Tells the writer of a log what the outcome of a send means: a full queue
/// would block, a disconnected one is a broken pipe.
pub fn log_result(sent: Result<(), SendFailure<LogMessage>>) -> (r: Result<(), SendLogError>)
    ensures
        r == log_outcome(sent),
{
    match sent {
        Ok(_) => Ok(()),
        Err(SendFailure::Full(m)) => Err(SendLogError::WouldBlock(m)),
        Err(SendFailure::Disconnected(m)) => Err(SendLogError::BrokenPipe(m)),
    }
}

/// The engine's end of the connection to the MIDI output.
pub struct MidiOutSender {
    cmd_channel: Option<Outgoing<MidiOutCommand>>,
    cur_message: LogMessage,
    log_channel: Option<Outgoing<LogMessage>>,
}

/// The other end of the connection.
pub struct MidiOutReceiver {
    pub cmd_channel: Receiver<MidiOutCommand>,
    pub log_channel: Receiver<LogMessage>,
}

/// How many commands may wait for the MIDI output.
pub const COMMAND_LIMIT: usize = 100;

/// How many log messages may wait for the MIDI output.
pub const LOG_LIMIT: usize = 10;

impl MidiOutSender {
    /// Where commands go, if anywhere.
    pub closed spec fn command_end(self) -> Option<Outgoing<MidiOutCommand>> {
        self.cmd_channel
    }

    /// Where log messages go, if anywhere.
    pub closed spec fn log_end(self) -> Option<Outgoing<LogMessage>> {
        self.log_channel
    }

    /// The log message that is being written.
    pub closed spec fn pending(self) -> LogMessage {
        self.cur_message
    }

    /// Whether what this sender sends comes out at `receiver`, over channels of
    /// the proper sizes.
    pub open spec fn reaches(self, receiver: MidiOutReceiver) -> bool {
        &&& self.command_end() is Some
        &&& self.log_end() is Some
        &&& command_link(self.command_end()->0.sender(), receiver.cmd_channel) == Some(
            COMMAND_LIMIT as nat,
        )
        &&& log_link(self.log_end()->0.sender(), receiver.log_channel) == Some(LOG_LIMIT as nat)
    }

    /// Two ends of a new connection.
    pub fn new() -> (r: (MidiOutSender, MidiOutReceiver))
        ensures
            r.0.reaches(r.1),
            r.0.command_end()->0.attempts().len() == 0,
            r.0.log_end()->0.attempts().len() == 0,
            r.0.pending().text() == LogText::blank(),
            r.0.pending().level() == LogLevel::Info,
    {
        let (tx, rx) = command_channel(COMMAND_LIMIT);
        let (log_tx, log_rx) = log_channel(LOG_LIMIT);
        let sender = MidiOutSender {
            cmd_channel: Some(Outgoing::new(tx)),
            cur_message: LogMessage::new(),
            log_channel: Some(Outgoing::new(log_tx)),
        };
        let receiver = MidiOutReceiver { cmd_channel: rx, log_channel: log_rx };
        (sender, receiver)
    }

    /// A sender that has nobody to send to.
    pub fn disconnected() -> (r: MidiOutSender)
        ensures
            r.command_end() is None,
            r.log_end() is None,
            r.pending().text() == LogText::blank(),
            r.pending().level() == LogLevel::Info,
    {
        MidiOutSender { cmd_channel: None, cur_message: LogMessage::new(), log_channel: None }
    }

    /// Sends a command once, if there is somebody to send it to. A command that
    /// does not go out comes back with the reason; the caller may drop it.
    pub fn send_update(&mut self, cmd: MidiOutCommand) -> (r: Result<
        (),
        SendFailure<MidiOutCommand>,
    >)
        ensures
            match old(self).command_end() {
                Some(end) => {
                    &&& final(self).command_end() is Some
                    &&& tried(end, final(self).command_end()->0, cmd, delivery(r))
                    &&& r is Err ==> r->Err_0.message() == cmd
                },
                None => r is Ok && final(self).command_end() is None,
            },
            final(self).log_end() == old(self).log_end(),
            final(self).pending() == old(self).pending(),
    {
        match &mut self.cmd_channel {
            Some(end) => try_send(end, cmd),
            None => Ok(()),
        }
    }

    /// Whether, between two moments, a log message was sent once, with this
    /// result, if there was somebody to send it to.
    pub open spec fn logged(
        before: MidiOutSender,
        after: MidiOutSender,
        message: LogMessage,
        r: Result<(), SendLogError>,
    ) -> bool {
        match before.log_end() {
            Some(end) => {
                &&& after.log_end() is Some
                &&& tried(end, after.log_end()->0, message, log_delivery(r))
                &&& r is Err ==> r->Err_0.unsent() == message
            },
            None => r is Ok && after.log_end() is None,
        }
    }

    /// Sends a log message once, if there is somebody to send it to. A failure is
    /// reported to the caller, who may ignore it.
    pub fn send_log(&mut self, message: LogMessage) -> (r: Result<(), SendLogError>)
        ensures
            MidiOutSender::logged(*old(self), *final(self), message, r),
            final(self).command_end() == old(self).command_end(),
            final(self).pending() == old(self).pending(),
    {
        self.send_log_with_result(message)
    }

    fn send_log_with_result(&mut self, message: LogMessage) -> (r: Result<(), SendLogError>)
        ensures
            MidiOutSender::logged(*old(self), *final(self), message, r),
            final(self).command_end() == old(self).command_end(),
            final(self).pending() == old(self).pending(),
    {
        match &mut self.log_channel {
            Some(end) => log_result(try_send(end, message)),
            None => Ok(()),
        }
    }

    /// Whether so many more bytes of the log message that is being written can
    /// be counted.
    pub fn can_count(&self, more: usize) -> (r: bool)
        ensures
            r == (self.pending().text().offered + more <= usize::MAX),
    {
        self.cur_message.can_count(more)
    }

    /// Appends to the log message that is being written.
    pub fn write(&mut self, s: &[u8]) -> (r: Result<usize, std::io::Error>)
        requires
            old(self).pending().text().offered + s@.len() <= usize::MAX,
        ensures
            final(self).pending().text() == old(self).pending().text().and(s@),
            final(self).pending().level() == old(self).pending().level(),
            final(self).command_end() == old(self).command_end(),
            final(self).log_end() == old(self).log_end(),
            r is Ok,
            r->Ok_0 == fitting(old(self).pending().text().bytes.len(), s@.len()),
    {
        self.cur_message.write(s)
    }

    /// Sends the log message that is being written, once, and begins a new one. A
    /// message that does not go out comes back with the reason.
    pub fn flush(&mut self) -> (r: Result<(), SendLogError>)
        ensures
            final(self).pending().text() == LogText::blank(),
            final(self).pending().level() == old(self).pending().level(),
            final(self).command_end() == old(self).command_end(),
            ({
                let message = final(self).log_end()->0.attempts().last().message;
                &&& MidiOutSender::logged(*old(self), *final(self), message, r)
                &&& old(self).log_end() is Some ==> message.text() == old(self).pending().text()
                &&& old(self).log_end() is Some ==> message.level() == old(self).pending().level()
            }),
    {
        let message = self.cur_message.clone();
        self.cur_message.len = 0;
        buffer_clear(&mut self.cur_message.buffer);
        self.send_log_with_result(message)
    }
}

impl Clone for MidiOutSender {
    fn clone(&self) -> (r: Self)
        ensures
            forall|receiver: MidiOutReceiver| #[trigger] r.reaches(receiver) == self.reaches(receiver),
            r.command_end() is Some == self.command_end() is Some,
            r.log_end() is Some == self.log_end() is Some,
            r.command_end() is Some ==> r.command_end()->0.attempts().len() == 0,
            r.log_end() is Some ==> r.log_end()->0.attempts().len() == 0,
            r.pending().text() == self.pending().text(),
            r.pending().level() == self.pending().level(),
    {
        MidiOutSender {
            cmd_channel: match &self.cmd_channel {
                Some(end) => Some(end.another()),
                None => None,
            },
            cur_message: self.cur_message.clone(),
            log_channel: match &self.log_channel {
                Some(end) => Some(end.another()),
                None => None,
            },
        }
    }
}

} // verus!
