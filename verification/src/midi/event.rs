//! MIDI events and their canonical wire encoding.

use vstd::prelude::*;

verus! {

/// The status nibble of each channel-voice message, channel 0.
pub const NOTE_OFF: u8 = 0x80;

pub const NOTE_ON: u8 = 0x90;

pub const POLY_AFTERTOUCH: u8 = 0xA0;

pub const CONTROL_CHANGE: u8 = 0xB0;

pub const PROGRAM_CHANGE: u8 = 0xC0;

pub const CHANNEL_AFTERTOUCH: u8 = 0xD0;

pub const PITCH_BEND: u8 = 0xE0;

/// Opens a System Exclusive run.
pub const SYSEX_START: u8 = 0xF0;

/// Closes a System Exclusive run.
pub const SYSEX_END: u8 = 0xF7;

/// The lowest System Realtime status.
pub const REALTIME_MIN: u8 = 0xF8;

/// System Reset, the highest status byte.
pub const SYSTEM_RESET: u8 = 0xFF;

/// A data byte has its high bit clear.
pub open spec fn is_data_byte(b: u8) -> bool {
    b < 0x80
}

/// A status byte has its high bit set.
pub open spec fn is_status_byte(b: u8) -> bool {
    b >= 0x80
}

/// The status bytes `0x80..=0xEF` open a channel-voice message.
pub open spec fn is_channel_status(b: u8) -> bool {
    0x80 <= b < 0xF0
}

/// The status bytes `0xF8..=0xFE` are single-byte System Realtime messages.
/// System Reset (`0xFF`) is not among them: on a byte stream it is what a
/// dead line reads as, and the decoder treats it as noise.
pub open spec fn is_realtime_byte(b: u8) -> bool {
    0xF8 <= b < 0xFF
}

/// How many data bytes follow a channel-voice status: one for Program Change and
/// Channel Aftertouch, two for the others.
pub open spec fn data_len(status: u8) -> nat
    recommends
        is_channel_status(status),
{
    if 0xC0 <= status < 0xE0 {
        1
    } else {
        2
    }
}

/// A channel-voice message. Channels run from 0 to 15, `bend` is a 14-bit
/// number and every other field a 7-bit number.
#[derive(Debug, Clone, Copy, PartialEq, Eq, Structural)]
pub enum ChannelMessage {
    NoteOff { channel: u8, key: u8, velocity: u8 },
    NoteOn { channel: u8, key: u8, velocity: u8 },
    PolyAftertouch { channel: u8, key: u8, pressure: u8 },
    ControlChange { channel: u8, controller: u8, value: u8 },
    ProgramChange { channel: u8, program: u8 },
    ChannelAftertouch { channel: u8, pressure: u8 },
    PitchBend { channel: u8, bend: u16 },
}

impl ChannelMessage {
    /// The channel the message is addressed to.
    pub open spec fn spec_channel(self) -> u8 {
        match self {
            ChannelMessage::NoteOff { channel, .. } => channel,
            ChannelMessage::NoteOn { channel, .. } => channel,
            ChannelMessage::PolyAftertouch { channel, .. } => channel,
            ChannelMessage::ControlChange { channel, .. } => channel,
            ChannelMessage::ProgramChange { channel, .. } => channel,
            ChannelMessage::ChannelAftertouch { channel, .. } => channel,
            ChannelMessage::PitchBend { channel, .. } => channel,
        }
    }

    /// The status of the message's kind on channel 0.
    pub open spec fn spec_kind(self) -> u8 {
        match self {
            ChannelMessage::NoteOff { .. } => NOTE_OFF,
            ChannelMessage::NoteOn { .. } => NOTE_ON,
            ChannelMessage::PolyAftertouch { .. } => POLY_AFTERTOUCH,
            ChannelMessage::ControlChange { .. } => CONTROL_CHANGE,
            ChannelMessage::ProgramChange { .. } => PROGRAM_CHANGE,
            ChannelMessage::ChannelAftertouch { .. } => CHANNEL_AFTERTOUCH,
            ChannelMessage::PitchBend { .. } => PITCH_BEND,
        }
    }

    /// The data bytes of the message, in wire order. A pitch bend sends its low
    /// seven bits first.
    pub open spec fn spec_data(self) -> Seq<u8> {
        match self {
            ChannelMessage::NoteOff { key, velocity, .. } => seq![key, velocity],
            ChannelMessage::NoteOn { key, velocity, .. } => seq![key, velocity],
            ChannelMessage::PolyAftertouch { key, pressure, .. } => seq![key, pressure],
            ChannelMessage::ControlChange { controller, value, .. } => seq![controller, value],
            ChannelMessage::ProgramChange { program, .. } => seq![program],
            ChannelMessage::ChannelAftertouch { pressure, .. } => seq![pressure],
            ChannelMessage::PitchBend { bend, .. } => seq![(bend % 128) as u8, (bend / 128) as u8],
        }
    }

    /// Every field is within the range its width allows.
    pub open spec fn wf(self) -> bool {
        &&& self.spec_channel() <= 15
        &&& match self {
            ChannelMessage::NoteOff { key, velocity, .. } => key < 0x80 && velocity < 0x80,
            ChannelMessage::NoteOn { key, velocity, .. } => key < 0x80 && velocity < 0x80,
            ChannelMessage::PolyAftertouch { key, pressure, .. } => key < 0x80 && pressure < 0x80,
            ChannelMessage::ControlChange { controller, value, .. } => controller < 0x80 && value
                < 0x80,
            ChannelMessage::ProgramChange { program, .. } => program < 0x80,
            ChannelMessage::ChannelAftertouch { pressure, .. } => pressure < 0x80,
            ChannelMessage::PitchBend { bend, .. } => bend < 0x4000,
        }
    }

    /// The status byte: the kind in the high nibble, the channel in the low.
    pub open spec fn spec_status(self) -> u8
        recommends
            self.wf(),
    {
        (self.spec_kind() + self.spec_channel()) as u8
    }

    /// The canonical encoding: the status byte, then the data bytes.
    pub open spec fn spec_bytes(self) -> Seq<u8>
        recommends
            self.wf(),
    {
        seq![self.spec_status()] + self.spec_data()
    }

    /// The message that a status byte and its data bytes encode.
    pub open spec fn spec_decode(status: u8, data: Seq<u8>) -> ChannelMessage
        recommends
            is_channel_status(status),
            data.len() == data_len(status),
    {
        let channel = status % 16;
        if status < NOTE_ON {
            ChannelMessage::NoteOff { channel, key: data[0], velocity: data[1] }
        } else if status < POLY_AFTERTOUCH {
            ChannelMessage::NoteOn { channel, key: data[0], velocity: data[1] }
        } else if status < CONTROL_CHANGE {
            ChannelMessage::PolyAftertouch { channel, key: data[0], pressure: data[1] }
        } else if status < PROGRAM_CHANGE {
            ChannelMessage::ControlChange { channel, controller: data[0], value: data[1] }
        } else if status < CHANNEL_AFTERTOUCH {
            ChannelMessage::ProgramChange { channel, program: data[0] }
        } else if status < PITCH_BEND {
            ChannelMessage::ChannelAftertouch { channel, pressure: data[0] }
        } else {
            ChannelMessage::PitchBend { channel, bend: (data[1] * 128 + data[0]) as u16 }
        }
    }

    /// Whether every field is within range.
    pub fn is_valid(&self) -> (r: bool)
        ensures
            r == self.wf(),
    {
        match self {
            ChannelMessage::NoteOff { channel, key, velocity } => *channel <= 15 && *key < 0x80
                && *velocity < 0x80,
            ChannelMessage::NoteOn { channel, key, velocity } => *channel <= 15 && *key < 0x80
                && *velocity < 0x80,
            ChannelMessage::PolyAftertouch { channel, key, pressure } => *channel <= 15 && *key
                < 0x80 && *pressure < 0x80,
            ChannelMessage::ControlChange { channel, controller, value } => *channel <= 15
                && *controller < 0x80 && *value < 0x80,
            ChannelMessage::ProgramChange { channel, program } => *channel <= 15 && *program
                < 0x80,
            ChannelMessage::ChannelAftertouch { channel, pressure } => *channel <= 15 && *pressure
                < 0x80,
            ChannelMessage::PitchBend { channel, bend } => *channel <= 15 && *bend < 0x4000,
        }
    }

    /// Decodes the message that `status` and the data bytes `d0` and `d1`
    /// encode; a kind with one data byte ignores `d1`.
    pub fn decode(status: u8, d0: u8, d1: u8) -> (m: ChannelMessage)
        requires
            is_channel_status(status),
            d0 < 0x80,
            d1 < 0x80,
        ensures
            data_len(status) == 2 ==> m == ChannelMessage::spec_decode(status, seq![d0, d1]),
            data_len(status) == 1 ==> m == ChannelMessage::spec_decode(status, seq![d0]),
            m.wf(),
            m.spec_status() == status,
    {
        let channel: u8 = status % 16;
        if status < NOTE_ON {
            ChannelMessage::NoteOff { channel, key: d0, velocity: d1 }
        } else if status < POLY_AFTERTOUCH {
            ChannelMessage::NoteOn { channel, key: d0, velocity: d1 }
        } else if status < CONTROL_CHANGE {
            ChannelMessage::PolyAftertouch { channel, key: d0, pressure: d1 }
        } else if status < PROGRAM_CHANGE {
            ChannelMessage::ControlChange { channel, controller: d0, value: d1 }
        } else if status < CHANNEL_AFTERTOUCH {
            ChannelMessage::ProgramChange { channel, program: d0 }
        } else if status < PITCH_BEND {
            ChannelMessage::ChannelAftertouch { channel, pressure: d0 }
        } else {
            let bend: u16 = (d1 as u16) * 128 + (d0 as u16);
            ChannelMessage::PitchBend { channel, bend }
        }
    }

    /// Appends the canonical encoding to `out`, or refuses a message with a
    /// field out of range and leaves `out` as it was.
    pub fn write(&self, out: &mut Vec<u8>) -> (r: Result<(), EncodeError>)
        ensures
            self.wf() ==> r is Ok && final(out)@ == old(out)@ + self.spec_bytes(),
            !self.wf() ==> r == Err::<(), EncodeError>(EncodeError::OutOfRange) && final(out)@
                == old(out)@,
    {
        if !self.is_valid() {
            return Err(EncodeError::OutOfRange);
        }
        let ghost before = out@;
        match self {
            ChannelMessage::NoteOff { channel, key, velocity } => {
                out.push(NOTE_OFF + *channel);
                out.push(*key);
                out.push(*velocity);
            },
            ChannelMessage::NoteOn { channel, key, velocity } => {
                out.push(NOTE_ON + *channel);
                out.push(*key);
                out.push(*velocity);
            },
            ChannelMessage::PolyAftertouch { channel, key, pressure } => {
                out.push(POLY_AFTERTOUCH + *channel);
                out.push(*key);
                out.push(*pressure);
            },
            ChannelMessage::ControlChange { channel, controller, value } => {
                out.push(CONTROL_CHANGE + *channel);
                out.push(*controller);
                out.push(*value);
            },
            ChannelMessage::ProgramChange { channel, program } => {
                out.push(PROGRAM_CHANGE + *channel);
                out.push(*program);
            },
            ChannelMessage::ChannelAftertouch { channel, pressure } => {
                out.push(CHANNEL_AFTERTOUCH + *channel);
                out.push(*pressure);
            },
            ChannelMessage::PitchBend { channel, bend } => {
                out.push(PITCH_BEND + *channel);
                out.push((*bend % 128) as u8);
                out.push((*bend / 128) as u8);
            },
        }
        assert(out@ =~= before + self.spec_bytes());
        Ok(())
    }
}

/// Why an event could not be encoded.
#[derive(Debug, Clone, Copy, PartialEq, Eq, Structural)]
pub enum EncodeError {
    /// A field holds a number wider than the wire format has room for.
    OutOfRange,
}

/// A channel status and the data bytes that it calls for decode to a well
/// formed message with that status and those data bytes.
pub proof fn lemma_decoded_is_wf(status: u8, data: Seq<u8>)
    requires
        is_channel_status(status),
        data.len() == data_len(status),
        forall|i: int| 0 <= i < data.len() ==> is_data_byte(#[trigger] data[i]),
    ensures
        ChannelMessage::spec_decode(status, data).wf(),
        ChannelMessage::spec_decode(status, data).spec_status() == status,
        ChannelMessage::spec_decode(status, data).spec_data() == data,
{
    let m = ChannelMessage::spec_decode(status, data);
    assert(is_data_byte(data[0]));
    if data_len(status) == 2 {
        assert(is_data_byte(data[1]));
    }
    assert(m.spec_data() =~= data);
}

/// Decoding a message's canonical encoding gives the message back.
pub proof fn lemma_decode_encode(m: ChannelMessage)
    requires
        m.wf(),
    ensures
        is_channel_status(m.spec_status()),
        m.spec_data().len() == data_len(m.spec_status()),
        forall|i: int| 0 <= i < m.spec_data().len() ==> is_data_byte(#[trigger] m.spec_data()[i]),
        ChannelMessage::spec_decode(m.spec_status(), m.spec_data()) == m,
{
}

/// A MIDI event: a channel-voice message, a System Exclusive run, or a
/// single-byte System Realtime message.
#[derive(Debug, Clone, PartialEq, Eq)]
pub enum MidiEvent {
    Voice(ChannelMessage),
    /// The data bytes between `0xF0` and `0xF7`.
    SysEx(Vec<u8>),
    /// The status byte of the realtime message.
    Realtime(u8),
}

/// What a [`MidiEvent`] stands for: the same event with its bytes as a sequence.
pub enum EventView {
    Voice(ChannelMessage),
    SysEx(Seq<u8>),
    Realtime(u8),
}

impl View for MidiEvent {
    type V = EventView;

    open spec fn view(&self) -> EventView {
        match self {
            MidiEvent::Voice(m) => EventView::Voice(*m),
            MidiEvent::SysEx(body) => EventView::SysEx(body@),
            MidiEvent::Realtime(b) => EventView::Realtime(*b),
        }
    }
}

/// The views of a sequence of events, in order.
pub open spec fn event_views(events: Seq<MidiEvent>) -> Seq<EventView> {
    Seq::new(events.len(), |i: int| events[i]@)
}

/// Every byte of `s` is a data byte.
pub open spec fn all_data_bytes(s: Seq<u8>) -> bool {
    forall|i: int| 0 <= i < s.len() ==> is_data_byte(#[trigger] s[i])
}

impl EventView {
    /// A channel message has its fields in range, a System Exclusive body holds
    /// data bytes only, and a realtime message carries a realtime status.
    pub open spec fn wf(self) -> bool {
        match self {
            EventView::Voice(m) => m.wf(),
            EventView::SysEx(body) => all_data_bytes(body),
            EventView::Realtime(b) => is_realtime_byte(b),
        }
    }

    /// The canonical encoding, without running status.
    pub open spec fn spec_bytes(self) -> Seq<u8>
        recommends
            self.wf(),
    {
        match self {
            EventView::Voice(m) => m.spec_bytes(),
            EventView::SysEx(body) => seq![SYSEX_START] + body + seq![SYSEX_END],
            EventView::Realtime(b) => seq![b],
        }
    }
}

/// Every event of `events` is well formed.
pub open spec fn all_wf(events: Seq<EventView>) -> bool {
    forall|k: int| 0 <= k < events.len() ==> (#[trigger] events[k]).wf()
}

/// Whether every byte of `bytes` is a data byte.
pub fn is_data_run(bytes: &Vec<u8>) -> (r: bool)
    ensures
        r == all_data_bytes(bytes@),
{
    let mut i: usize = 0;
    while i < bytes.len()
        invariant
            i <= bytes.len(),
            forall|j: int| 0 <= j < i ==> is_data_byte(#[trigger] bytes@[j]),
        decreases bytes.len() - i,
    {
        if bytes[i] >= 0x80 {
            return false;
        }
        i += 1;
    }
    true
}

impl MidiEvent {
    /// Whether the event can be encoded: see [`EventView::wf`].
    pub fn is_valid(&self) -> (r: bool)
        ensures
            r == self@.wf(),
    {
        match self {
            MidiEvent::Voice(m) => m.is_valid(),
            MidiEvent::SysEx(body) => is_data_run(body),
            MidiEvent::Realtime(b) => REALTIME_MIN <= *b && *b < SYSTEM_RESET,
        }
    }

    /// Appends the event's canonical encoding to `out`. An event that is not
    /// well formed is refused before any byte is written.
    pub fn write(&self, out: &mut Vec<u8>) -> (r: Result<(), EncodeError>)
        ensures
            self@.wf() ==> r is Ok && final(out)@ == old(out)@ + self@.spec_bytes(),
            !self@.wf() ==> r == Err::<(), EncodeError>(EncodeError::OutOfRange) && final(out)@
                == old(out)@,
    {
        if !self.is_valid() {
            return Err(EncodeError::OutOfRange);
        }
        let ghost before = out@;
        match self {
            MidiEvent::Voice(m) => {
                let r = m.write(out);
                return r;
            },
            MidiEvent::SysEx(body) => {
                out.push(SYSEX_START);
                let mut i: usize = 0;
                while i < body.len()
                    invariant
                        i <= body.len(),
                        out@ == before + seq![SYSEX_START] + body@.subrange(0, i as int),
                    decreases body.len() - i,
                {
                    out.push(body[i]);
                    assert(body@.subrange(0, i + 1) =~= body@.subrange(0, i as int).push(
                        body@[i as int],
                    ));
                    i += 1;
                }
                out.push(SYSEX_END);
                assert(body@.subrange(0, i as int) =~= body@);
                assert(out@ =~= before + self@.spec_bytes());
            },
            MidiEvent::Realtime(b) => {
                out.push(*b);
                assert(out@ =~= before + self@.spec_bytes());
            },
        }
        Ok(())
    }

    /// The event's canonical encoding, or nothing for an event that is not
    /// well formed.
    pub fn to_bytes(&self) -> (r: Option<Vec<u8>>)
        ensures
            self@.wf() ==> r is Some && r.unwrap()@ == self@.spec_bytes(),
            !self@.wf() ==> r is None,
    {
        let mut out: Vec<u8> = Vec::new();
        match self.write(&mut out) {
            Ok(()) => {
                assert(out@ =~= self@.spec_bytes());
                Some(out)
            },
            Err(_) => None,
        }
    }
}

} // verus!
