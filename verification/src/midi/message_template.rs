//! Templates over channel-voice messages: one list of value specifiers per
//! field, to match a message against and to generate one from.

use vstd::prelude::*;
use crate::message::{
    lemma_generate_matched, lemma_lookup_is_map, lemma_lookup_push, lemma_matches_many_is_first,
    lemma_rename_identity, matches_many, spec_as_map, spec_lookup, spec_matches_many,
    FieldMatchView, Match, Number, Template, Transformer,
};
use crate::midi::event::{ChannelMessage, MidiEvent};

verus! {

/// The largest channel number.
pub const MAX_CHANNEL: u32 = 15;

/// The largest number that a seven-bit field holds.
pub const MAX_DATA: u32 = 0x7F;

/// The largest pitch bend, a fourteen-bit number.
pub const MAX_BEND: u32 = 0x3FFF;

/// A template for one kind of channel-voice message. Each field holds the
/// specifiers that a message's field is tried against, in order.
#[derive(Debug, Clone, PartialEq, Eq)]
pub enum MessageTemplate {
    NoteOn { channel: Vec<Number>, note: Vec<Number>, velocity: Vec<Number> },
    NoteOff { channel: Vec<Number>, note: Vec<Number>, velocity: Vec<Number> },
    ControlChange { channel: Vec<Number>, controller: Vec<Number>, value: Vec<Number> },
    ProgramChange { channel: Vec<Number>, program: Vec<Number> },
    PolyPressure { channel: Vec<Number>, note: Vec<Number>, pressure: Vec<Number> },
    ChannelPressure { channel: Vec<Number>, pressure: Vec<Number> },
    PitchBend { channel: Vec<Number>, bend: Vec<Number> },
}

/// A list of specifiers is well formed when it is not empty and holds no
/// inverted range.
pub open spec fn specs_wf(specs: Seq<Number>) -> bool {
    &&& specs.len() > 0
    &&& forall|i: int|
        0 <= i < specs.len() ==> ((#[trigger] specs[i]) matches Number::Range(r) ==> r.wf())
}

/// Whether a list of specifiers is well formed: see [`specs_wf`].
fn specs_valid(specs: &Vec<Number>) -> (r: bool)
    ensures
        r == specs_wf(specs@),
{
    if specs.len() == 0 {
        return false;
    }
    let mut i: usize = 0;
    while i < specs.len()
        invariant
            i <= specs.len(),
            specs.len() > 0,
            forall|j: int|
                0 <= j < i ==> ((#[trigger] specs@[j]) matches Number::Range(r) ==> r.wf()),
        decreases specs.len() - i,
    {
        match specs[i] {
            Number::Range(range) => {
                if range.0 > range.1 {
                    return false;
                }
            },
            _ => {},
        }
        i += 1;
    }
    true
}

impl MessageTemplate {
    /// A template is well formed when every field's list of specifiers is.
    pub open spec fn wf(&self) -> bool {
        match self {
            MessageTemplate::NoteOn { channel, note, velocity } => specs_wf(channel@) && specs_wf(
                note@,
            ) && specs_wf(velocity@),
            MessageTemplate::NoteOff { channel, note, velocity } => specs_wf(channel@)
                && specs_wf(note@) && specs_wf(velocity@),
            MessageTemplate::ControlChange { channel, controller, value } => specs_wf(channel@)
                && specs_wf(controller@) && specs_wf(value@),
            MessageTemplate::ProgramChange { channel, program } => specs_wf(channel@) && specs_wf(
                program@,
            ),
            MessageTemplate::PolyPressure { channel, note, pressure } => specs_wf(channel@)
                && specs_wf(note@) && specs_wf(pressure@),
            MessageTemplate::ChannelPressure { channel, pressure } => specs_wf(channel@)
                && specs_wf(pressure@),
            MessageTemplate::PitchBend { channel, bend } => specs_wf(channel@) && specs_wf(bend@),
        }
    }

    /// Whether the template is well formed: see [`MessageTemplate::wf`].
    pub fn is_valid(&self) -> (r: bool)
        ensures
            r == self.wf(),
    {
        match self {
            MessageTemplate::NoteOn { channel, note, velocity } => specs_valid(channel)
                && specs_valid(note) && specs_valid(velocity),
            MessageTemplate::NoteOff { channel, note, velocity } => specs_valid(channel)
                && specs_valid(note) && specs_valid(velocity),
            MessageTemplate::ControlChange { channel, controller, value } => specs_valid(channel)
                && specs_valid(controller) && specs_valid(value),
            MessageTemplate::ProgramChange { channel, program } => specs_valid(channel)
                && specs_valid(program),
            MessageTemplate::PolyPressure { channel, note, pressure } => specs_valid(channel)
                && specs_valid(note) && specs_valid(pressure),
            MessageTemplate::ChannelPressure { channel, pressure } => specs_valid(channel)
                && specs_valid(pressure),
            MessageTemplate::PitchBend { channel, bend } => specs_valid(channel) && specs_valid(
                bend,
            ),
        }
    }
}

/// The entries `so_far` with the match of one more field behind them, or
/// nothing where an earlier field or this one did not match.
pub open spec fn spec_match_field(
    so_far: Option<Seq<FieldMatchView>>,
    field: Seq<char>,
    specs: Seq<Number>,
    n: u32,
) -> Option<Seq<FieldMatchView>> {
    match (so_far, spec_matches_many(specs, n)) {
        (Some(entries), Some((index, value))) => Some(
            entries.push(FieldMatchView { field, index, value }),
        ),
        _ => None,
    }
}

/// The number that a match generates for one field: the entry of that name
/// picks a specifier of the field's list, which generates from the entry's
/// witness. There is no number where the entry is missing, its index lies
/// beyond the list, the specifier cannot generate from the witness, or the
/// number is larger than `max`.
pub open spec fn spec_generate_field(
    entries: Seq<FieldMatchView>,
    field: Seq<char>,
    specs: Seq<Number>,
    max: u32,
) -> Option<u32> {
    match spec_lookup(entries, field) {
        Some((index, value)) => if index < specs.len() {
            match specs[index as int].spec_generate(value) {
                Some(n) => if n <= max {
                    Some(n)
                } else {
                    None
                },
                None => None,
            }
        } else {
            None
        },
        None => None,
    }
}

/// Matches one field and records the match in `matched`.
fn match_field(matched: &mut Match, field: &str, specs: &Vec<Number>, n: u32) -> (ok: bool)
    ensures
        ok ==> spec_match_field(Some(old(matched)@), field@, specs@, n) == Some(final(matched)@),
        !ok ==> spec_match_field(Some(old(matched)@), field@, specs@, n) is None,
{
    match matches_many(specs, n) {
        Some((index, value)) => {
            matched.insert(field.to_owned(), index, value);
            true
        },
        None => false,
    }
}

/// Generates the number of one field: see [`spec_generate_field`].
fn generate_field(matched: &Match, field: &str, specs: &Vec<Number>, max: u32) -> (r: Option<u32>)
    ensures
        r == spec_generate_field(matched@, field@, specs@, max),
{
    match matched.get(field) {
        Some((index, value)) => {
            if index < specs.len() {
                match specs[index].generate(value) {
                    Some(n) => {
                        if n <= max {
                            Some(n)
                        } else {
                            None
                        }
                    },
                    None => None,
                }
            } else {
                None
            }
        },
        None => None,
    }
}

/// The entries of a match of three fields.
pub open spec fn spec_match3(
    f0: Seq<char>,
    s0: Seq<Number>,
    n0: u32,
    f1: Seq<char>,
    s1: Seq<Number>,
    n1: u32,
    f2: Seq<char>,
    s2: Seq<Number>,
    n2: u32,
) -> Option<Seq<FieldMatchView>> {
    spec_match_field(
        spec_match_field(spec_match_field(Some(Seq::empty()), f0, s0, n0), f1, s1, n1),
        f2,
        s2,
        n2,
    )
}

/// The entries of a match of two fields.
pub open spec fn spec_match2(
    f0: Seq<char>,
    s0: Seq<Number>,
    n0: u32,
    f1: Seq<char>,
    s1: Seq<Number>,
    n1: u32,
) -> Option<Seq<FieldMatchView>> {
    spec_match_field(spec_match_field(Some(Seq::empty()), f0, s0, n0), f1, s1, n1)
}

fn match3(
    f0: &str,
    s0: &Vec<Number>,
    n0: u32,
    f1: &str,
    s1: &Vec<Number>,
    n1: u32,
    f2: &str,
    s2: &Vec<Number>,
    n2: u32,
) -> (r: Option<Match>)
    ensures
        r matches Some(m) ==> spec_match3(f0@, s0@, n0, f1@, s1@, n1, f2@, s2@, n2) == Some(m@),
        r is None ==> spec_match3(f0@, s0@, n0, f1@, s1@, n1, f2@, s2@, n2) is None,
{
    let mut matched = Match::new();
    if !match_field(&mut matched, f0, s0, n0) {
        return None;
    }
    if !match_field(&mut matched, f1, s1, n1) {
        return None;
    }
    if !match_field(&mut matched, f2, s2, n2) {
        return None;
    }
    Some(matched)
}

fn match2(f0: &str, s0: &Vec<Number>, n0: u32, f1: &str, s1: &Vec<Number>, n1: u32) -> (r: Option<
    Match,
>)
    ensures
        r matches Some(m) ==> spec_match2(f0@, s0@, n0, f1@, s1@, n1) == Some(m@),
        r is None ==> spec_match2(f0@, s0@, n0, f1@, s1@, n1) is None,
{
    let mut matched = Match::new();
    if !match_field(&mut matched, f0, s0, n0) {
        return None;
    }
    if !match_field(&mut matched, f1, s1, n1) {
        return None;
    }
    Some(matched)
}

impl Template for MessageTemplate {
    type Message = MidiEvent;

    /// A template matches a channel-voice message of its own kind whose
    /// every field matches one of the specifiers of the template's field of
    /// that name. The match holds one entry per field, in the order of the
    /// template's fields.
    open spec fn spec_matches(&self, msg: MidiEvent) -> Option<Seq<FieldMatchView>> {
        match (*self, msg) {
            (
                MessageTemplate::NoteOn { channel, note, velocity },
                MidiEvent::Voice(ChannelMessage::NoteOn { channel: c, key: k, velocity: v }),
            ) => spec_match3(
                "channel"@,
                channel@,
                c as u32,
                "note"@,
                note@,
                k as u32,
                "velocity"@,
                velocity@,
                v as u32,
            ),
            (
                MessageTemplate::NoteOff { channel, note, velocity },
                MidiEvent::Voice(ChannelMessage::NoteOff { channel: c, key: k, velocity: v }),
            ) => spec_match3(
                "channel"@,
                channel@,
                c as u32,
                "note"@,
                note@,
                k as u32,
                "velocity"@,
                velocity@,
                v as u32,
            ),
            (
                MessageTemplate::PolyPressure { channel, note, pressure },
                MidiEvent::Voice(ChannelMessage::PolyAftertouch { channel: c, key: k, pressure: p }),
            ) => spec_match3(
                "channel"@,
                channel@,
                c as u32,
                "note"@,
                note@,
                k as u32,
                "pressure"@,
                pressure@,
                p as u32,
            ),
            (
                MessageTemplate::ControlChange { channel, controller, value },
                MidiEvent::Voice(
                    ChannelMessage::ControlChange { channel: c, controller: k, value: v },
                ),
            ) => spec_match3(
                "channel"@,
                channel@,
                c as u32,
                "controller"@,
                controller@,
                k as u32,
                "value"@,
                value@,
                v as u32,
            ),
            (
                MessageTemplate::ProgramChange { channel, program },
                MidiEvent::Voice(ChannelMessage::ProgramChange { channel: c, program: p }),
            ) => spec_match2("channel"@, channel@, c as u32, "program"@, program@, p as u32),
            (
                MessageTemplate::ChannelPressure { channel, pressure },
                MidiEvent::Voice(ChannelMessage::ChannelAftertouch { channel: c, pressure: p }),
            ) => spec_match2("channel"@, channel@, c as u32, "pressure"@, pressure@, p as u32),
            (
                MessageTemplate::PitchBend { channel, bend },
                MidiEvent::Voice(ChannelMessage::PitchBend { channel: c, bend: b }),
            ) => spec_match2("channel"@, channel@, c as u32, "bend"@, bend@, b as u32),
            _ => None,
        }
    }

    /// A template generates the message of its kind whose every field is
    /// the number that the match generates for it; it generates nothing
    /// where a field has no number.
    open spec fn spec_generate(&self, matched: Seq<FieldMatchView>) -> Option<MidiEvent> {
        match *self {
            MessageTemplate::NoteOn { channel, note, velocity } => match (
                spec_generate_field(matched, "channel"@, channel@, MAX_CHANNEL),
                spec_generate_field(matched, "note"@, note@, MAX_DATA),
                spec_generate_field(matched, "velocity"@, velocity@, MAX_DATA),
            ) {
                (Some(c), Some(k), Some(v)) => Some(
                    MidiEvent::Voice(
                        ChannelMessage::NoteOn { channel: c as u8, key: k as u8, velocity: v as u8 },
                    ),
                ),
                _ => None,
            },
            MessageTemplate::NoteOff { channel, note, velocity } => match (
                spec_generate_field(matched, "channel"@, channel@, MAX_CHANNEL),
                spec_generate_field(matched, "note"@, note@, MAX_DATA),
                spec_generate_field(matched, "velocity"@, velocity@, MAX_DATA),
            ) {
                (Some(c), Some(k), Some(v)) => Some(
                    MidiEvent::Voice(
                        ChannelMessage::NoteOff {
                            channel: c as u8,
                            key: k as u8,
                            velocity: v as u8,
                        },
                    ),
                ),
                _ => None,
            },
            MessageTemplate::ControlChange { channel, controller, value } => match (
                spec_generate_field(matched, "channel"@, channel@, MAX_CHANNEL),
                spec_generate_field(matched, "controller"@, controller@, MAX_DATA),
                spec_generate_field(matched, "value"@, value@, MAX_DATA),
            ) {
                (Some(c), Some(k), Some(v)) => Some(
                    MidiEvent::Voice(
                        ChannelMessage::ControlChange {
                            channel: c as u8,
                            controller: k as u8,
                            value: v as u8,
                        },
                    ),
                ),
                _ => None,
            },
            MessageTemplate::PolyPressure { channel, note, pressure } => match (
                spec_generate_field(matched, "channel"@, channel@, MAX_CHANNEL),
                spec_generate_field(matched, "note"@, note@, MAX_DATA),
                spec_generate_field(matched, "pressure"@, pressure@, MAX_DATA),
            ) {
                (Some(c), Some(k), Some(p)) => Some(
                    MidiEvent::Voice(
                        ChannelMessage::PolyAftertouch {
                            channel: c as u8,
                            key: k as u8,
                            pressure: p as u8,
                        },
                    ),
                ),
                _ => None,
            },
            MessageTemplate::ProgramChange { channel, program } => match (
                spec_generate_field(matched, "channel"@, channel@, MAX_CHANNEL),
                spec_generate_field(matched, "program"@, program@, MAX_DATA),
            ) {
                (Some(c), Some(p)) => Some(
                    MidiEvent::Voice(
                        ChannelMessage::ProgramChange { channel: c as u8, program: p as u8 },
                    ),
                ),
                _ => None,
            },
            MessageTemplate::ChannelPressure { channel, pressure } => match (
                spec_generate_field(matched, "channel"@, channel@, MAX_CHANNEL),
                spec_generate_field(matched, "pressure"@, pressure@, MAX_DATA),
            ) {
                (Some(c), Some(p)) => Some(
                    MidiEvent::Voice(
                        ChannelMessage::ChannelAftertouch { channel: c as u8, pressure: p as u8 },
                    ),
                ),
                _ => None,
            },
            MessageTemplate::PitchBend { channel, bend } => match (
                spec_generate_field(matched, "channel"@, channel@, MAX_CHANNEL),
                spec_generate_field(matched, "bend"@, bend@, MAX_BEND),
            ) {
                (Some(c), Some(b)) => Some(
                    MidiEvent::Voice(ChannelMessage::PitchBend { channel: c as u8, bend: b as u16 }),
                ),
                _ => None,
            },
        }
    }

    /// Checks if the given message matches the template, and if it does,
    /// returns a [`Match`] describing the qualities of the match.
    fn matches(&self, msg: MidiEvent) -> (r: Option<Match>) {
        let message = match msg {
            MidiEvent::Voice(message) => message,
            _ => {
                return None;
            },
        };
        match (self, message) {
            (
                MessageTemplate::NoteOn { channel, note, velocity },
                ChannelMessage::NoteOn { channel: c, key: k, velocity: v },
            ) => match3(
                "channel",
                channel,
                c as u32,
                "note",
                note,
                k as u32,
                "velocity",
                velocity,
                v as u32,
            ),
            (
                MessageTemplate::NoteOff { channel, note, velocity },
                ChannelMessage::NoteOff { channel: c, key: k, velocity: v },
            ) => match3(
                "channel",
                channel,
                c as u32,
                "note",
                note,
                k as u32,
                "velocity",
                velocity,
                v as u32,
            ),
            (
                MessageTemplate::PolyPressure { channel, note, pressure },
                ChannelMessage::PolyAftertouch { channel: c, key: k, pressure: p },
            ) => match3(
                "channel",
                channel,
                c as u32,
                "note",
                note,
                k as u32,
                "pressure",
                pressure,
                p as u32,
            ),
            (
                MessageTemplate::ControlChange { channel, controller, value },
                ChannelMessage::ControlChange { channel: c, controller: k, value: v },
            ) => match3(
                "channel",
                channel,
                c as u32,
                "controller",
                controller,
                k as u32,
                "value",
                value,
                v as u32,
            ),
            (
                MessageTemplate::ProgramChange { channel, program },
                ChannelMessage::ProgramChange { channel: c, program: p },
            ) => match2("channel", channel, c as u32, "program", program, p as u32),
            (
                MessageTemplate::ChannelPressure { channel, pressure },
                ChannelMessage::ChannelAftertouch { channel: c, pressure: p },
            ) => match2("channel", channel, c as u32, "pressure", pressure, p as u32),
            (
                MessageTemplate::PitchBend { channel, bend },
                ChannelMessage::PitchBend { channel: c, bend: b },
            ) => match2("channel", channel, c as u32, "bend", bend, b as u32),
            _ => None,
        }
    }

    /// Given the qualities of a matched message, generates the appropriate
    /// output message.
    fn generate(&self, matched: Match) -> (r: Option<MidiEvent>) {
        match self {
            MessageTemplate::NoteOn { channel, note, velocity } => {
                let c = generate_field(&matched, "channel", channel, MAX_CHANNEL);
                let k = generate_field(&matched, "note", note, MAX_DATA);
                let v = generate_field(&matched, "velocity", velocity, MAX_DATA);
                match (c, k, v) {
                    (Some(c), Some(k), Some(v)) => Some(
                        MidiEvent::Voice(
                            ChannelMessage::NoteOn {
                                channel: c as u8,
                                key: k as u8,
                                velocity: v as u8,
                            },
                        ),
                    ),
                    _ => None,
                }
            },
            MessageTemplate::NoteOff { channel, note, velocity } => {
                let c = generate_field(&matched, "channel", channel, MAX_CHANNEL);
                let k = generate_field(&matched, "note", note, MAX_DATA);
                let v = generate_field(&matched, "velocity", velocity, MAX_DATA);
                match (c, k, v) {
                    (Some(c), Some(k), Some(v)) => Some(
                        MidiEvent::Voice(
                            ChannelMessage::NoteOff {
                                channel: c as u8,
                                key: k as u8,
                                velocity: v as u8,
                            },
                        ),
                    ),
                    _ => None,
                }
            },
            MessageTemplate::ControlChange { channel, controller, value } => {
                let c = generate_field(&matched, "channel", channel, MAX_CHANNEL);
                let k = generate_field(&matched, "controller", controller, MAX_DATA);
                let v = generate_field(&matched, "value", value, MAX_DATA);
                match (c, k, v) {
                    (Some(c), Some(k), Some(v)) => Some(
                        MidiEvent::Voice(
                            ChannelMessage::ControlChange {
                                channel: c as u8,
                                controller: k as u8,
                                value: v as u8,
                            },
                        ),
                    ),
                    _ => None,
                }
            },
            MessageTemplate::PolyPressure { channel, note, pressure } => {
                let c = generate_field(&matched, "channel", channel, MAX_CHANNEL);
                let k = generate_field(&matched, "note", note, MAX_DATA);
                let p = generate_field(&matched, "pressure", pressure, MAX_DATA);
                match (c, k, p) {
                    (Some(c), Some(k), Some(p)) => Some(
                        MidiEvent::Voice(
                            ChannelMessage::PolyAftertouch {
                                channel: c as u8,
                                key: k as u8,
                                pressure: p as u8,
                            },
                        ),
                    ),
                    _ => None,
                }
            },
            MessageTemplate::ProgramChange { channel, program } => {
                let c = generate_field(&matched, "channel", channel, MAX_CHANNEL);
                let p = generate_field(&matched, "program", program, MAX_DATA);
                match (c, p) {
                    (Some(c), Some(p)) => Some(
                        MidiEvent::Voice(
                            ChannelMessage::ProgramChange { channel: c as u8, program: p as u8 },
                        ),
                    ),
                    _ => None,
                }
            },
            MessageTemplate::ChannelPressure { channel, pressure } => {
                let c = generate_field(&matched, "channel", channel, MAX_CHANNEL);
                let p = generate_field(&matched, "pressure", pressure, MAX_DATA);
                match (c, p) {
                    (Some(c), Some(p)) => Some(
                        MidiEvent::Voice(
                            ChannelMessage::ChannelAftertouch {
                                channel: c as u8,
                                pressure: p as u8,
                            },
                        ),
                    ),
                    _ => None,
                }
            },
            MessageTemplate::PitchBend { channel, bend } => {
                let c = generate_field(&matched, "channel", channel, MAX_CHANNEL);
                let b = generate_field(&matched, "bend", bend, MAX_BEND);
                match (c, b) {
                    (Some(c), Some(b)) => Some(
                        MidiEvent::Voice(
                            ChannelMessage::PitchBend { channel: c as u8, bend: b as u16 },
                        ),
                    ),
                    _ => None,
                }
            },
        }
    }
}

impl MessageTemplate {
    /// The specifier lists of a template are no longer than a machine can hold.
    proof fn lemma_lists_bounded(self)
        ensures
            match self {
                MessageTemplate::NoteOn { channel, note, velocity } => channel@.len()
                    <= usize::MAX && note@.len() <= usize::MAX && velocity@.len() <= usize::MAX,
                MessageTemplate::NoteOff { channel, note, velocity } => channel@.len()
                    <= usize::MAX && note@.len() <= usize::MAX && velocity@.len() <= usize::MAX,
                MessageTemplate::ControlChange { channel, controller, value } => channel@.len()
                    <= usize::MAX && controller@.len() <= usize::MAX && value@.len()
                    <= usize::MAX,
                MessageTemplate::ProgramChange { channel, program } => channel@.len()
                    <= usize::MAX && program@.len() <= usize::MAX,
                MessageTemplate::PolyPressure { channel, note, pressure } => channel@.len()
                    <= usize::MAX && note@.len() <= usize::MAX && pressure@.len() <= usize::MAX,
                MessageTemplate::ChannelPressure { channel, pressure } => channel@.len()
                    <= usize::MAX && pressure@.len() <= usize::MAX,
                MessageTemplate::PitchBend { channel, bend } => channel@.len() <= usize::MAX
                    && bend@.len() <= usize::MAX,
            },
    {
        match self {
            MessageTemplate::NoteOn { channel, note, velocity } => {
                assert(channel.len() == channel@.len());
                assert(note.len() == note@.len());
                assert(velocity.len() == velocity@.len());
            },
            MessageTemplate::NoteOff { channel, note, velocity } => {
                assert(channel.len() == channel@.len());
                assert(note.len() == note@.len());
                assert(velocity.len() == velocity@.len());
            },
            MessageTemplate::ControlChange { channel, controller, value } => {
                assert(channel.len() == channel@.len());
                assert(controller.len() == controller@.len());
                assert(value.len() == value@.len());
            },
            MessageTemplate::ProgramChange { channel, program } => {
                assert(channel.len() == channel@.len());
                assert(program.len() == program@.len());
            },
            MessageTemplate::PolyPressure { channel, note, pressure } => {
                assert(channel.len() == channel@.len());
                assert(note.len() == note@.len());
                assert(pressure.len() == pressure@.len());
            },
            MessageTemplate::ChannelPressure { channel, pressure } => {
                assert(channel.len() == channel@.len());
                assert(pressure.len() == pressure@.len());
            },
            MessageTemplate::PitchBend { channel, bend } => {
                assert(channel.len() == channel@.len());
                assert(bend.len() == bend@.len());
            },
        }
    }
}

/// The names of the fields of one template differ from each other.
pub proof fn lemma_field_names_differ()
    ensures
        "channel"@ != "note"@,
        "channel"@ != "velocity"@,
        "channel"@ != "controller"@,
        "channel"@ != "value"@,
        "channel"@ != "program"@,
        "channel"@ != "pressure"@,
        "channel"@ != "bend"@,
        "note"@ != "velocity"@,
        "note"@ != "pressure"@,
        "controller"@ != "value"@,
{
    reveal_strlit("channel");
    reveal_strlit("note");
    reveal_strlit("velocity");
    reveal_strlit("controller");
    reveal_strlit("value");
    reveal_strlit("program");
    reveal_strlit("pressure");
    reveal_strlit("bend");
    assert("channel"@[0] != "program"@[0]);
    assert("channel"@[0] != "note"@[0]);
    assert("note"@[0] != "velocity"@[0]);
    assert("note"@[0] != "pressure"@[0]);
    assert("controller"@[1] != "value"@[1]);
}

/// From the entry that matching `n` left behind, the field generates `n` again.
proof fn lemma_field_generates(
    entries: Seq<FieldMatchView>,
    field: Seq<char>,
    specs: Seq<Number>,
    n: u32,
    max: u32,
)
    requires
        specs.len() <= usize::MAX,
        n <= max,
        spec_matches_many(specs, n) is Some,
        spec_lookup(entries, field) == spec_matches_many(specs, n),
    ensures
        spec_generate_field(entries, field, specs, max) == Some(n),
{
    lemma_matches_many_is_first(specs, n);
    let (index, value) = spec_matches_many(specs, n).unwrap();
    lemma_generate_matched(specs[index as int], n);
}

/// From the match of three fields, each field generates its number again.
proof fn lemma_match3_generates(
    f0: Seq<char>,
    s0: Seq<Number>,
    n0: u32,
    max0: u32,
    f1: Seq<char>,
    s1: Seq<Number>,
    n1: u32,
    max1: u32,
    f2: Seq<char>,
    s2: Seq<Number>,
    n2: u32,
    max2: u32,
)
    requires
        f0 != f1,
        f0 != f2,
        f1 != f2,
        n0 <= max0,
        n1 <= max1,
        n2 <= max2,
        s0.len() <= usize::MAX,
        s1.len() <= usize::MAX,
        s2.len() <= usize::MAX,
        spec_match3(f0, s0, n0, f1, s1, n1, f2, s2, n2) is Some,
    ensures
        ({
            let entries = spec_match3(f0, s0, n0, f1, s1, n1, f2, s2, n2).unwrap();
            &&& spec_generate_field(entries, f0, s0, max0) == Some(n0)
            &&& spec_generate_field(entries, f1, s1, max1) == Some(n1)
            &&& spec_generate_field(entries, f2, s2, max2) == Some(n2)
        }),
{
    let e0 = spec_match_field(Some(Seq::empty()), f0, s0, n0).unwrap();
    let e1 = spec_match_field(Some(e0), f1, s1, n1).unwrap();
    let e2 = spec_match_field(Some(e1), f2, s2, n2).unwrap();
    let (i0, v0) = spec_matches_many(s0, n0).unwrap();
    let (i1, v1) = spec_matches_many(s1, n1).unwrap();
    let (i2, v2) = spec_matches_many(s2, n2).unwrap();
    let m0 = FieldMatchView { field: f0, index: i0, value: v0 };
    let m1 = FieldMatchView { field: f1, index: i1, value: v1 };
    let m2 = FieldMatchView { field: f2, index: i2, value: v2 };
    lemma_lookup_push(Seq::empty(), m0, f0);
    lemma_lookup_push(e0, m1, f0);
    lemma_lookup_push(e0, m1, f1);
    lemma_lookup_push(e1, m2, f0);
    lemma_lookup_push(e1, m2, f1);
    lemma_lookup_push(e1, m2, f2);
    lemma_field_generates(e2, f0, s0, n0, max0);
    lemma_field_generates(e2, f1, s1, n1, max1);
    lemma_field_generates(e2, f2, s2, n2, max2);
}

/// From the match of two fields, each field generates its number again.
proof fn lemma_match2_generates(
    f0: Seq<char>,
    s0: Seq<Number>,
    n0: u32,
    max0: u32,
    f1: Seq<char>,
    s1: Seq<Number>,
    n1: u32,
    max1: u32,
)
    requires
        f0 != f1,
        n0 <= max0,
        n1 <= max1,
        s0.len() <= usize::MAX,
        s1.len() <= usize::MAX,
        spec_match2(f0, s0, n0, f1, s1, n1) is Some,
    ensures
        ({
            let entries = spec_match2(f0, s0, n0, f1, s1, n1).unwrap();
            &&& spec_generate_field(entries, f0, s0, max0) == Some(n0)
            &&& spec_generate_field(entries, f1, s1, max1) == Some(n1)
        }),
{
    let e0 = spec_match_field(Some(Seq::empty()), f0, s0, n0).unwrap();
    let e1 = spec_match_field(Some(e0), f1, s1, n1).unwrap();
    let (i0, v0) = spec_matches_many(s0, n0).unwrap();
    let (i1, v1) = spec_matches_many(s1, n1).unwrap();
    let m0 = FieldMatchView { field: f0, index: i0, value: v0 };
    let m1 = FieldMatchView { field: f1, index: i1, value: v1 };
    lemma_lookup_push(Seq::empty(), m0, f0);
    lemma_lookup_push(e0, m1, f0);
    lemma_lookup_push(e0, m1, f1);
    lemma_field_generates(e1, f0, s0, n0, max0);
    lemma_field_generates(e1, f1, s1, n1, max1);
}

/// What a template matched, it generates again: from the match of a well
/// formed message the template generates that very message.
pub proof fn lemma_generate_matched_message(template: MessageTemplate, msg: MidiEvent)
    requires
        msg@.wf(),
        template.spec_matches(msg) is Some,
    ensures
        template.spec_generate(template.spec_matches(msg).unwrap()) == Some(msg),
{
    lemma_field_names_differ();
    template.lemma_lists_bounded();
    match (template, msg) {
        (
            MessageTemplate::NoteOn { channel, note, velocity },
            MidiEvent::Voice(ChannelMessage::NoteOn { channel: c, key: k, velocity: v }),
        ) => {
            lemma_match3_generates(
                "channel"@,
                channel@,
                c as u32,
                MAX_CHANNEL,
                "note"@,
                note@,
                k as u32,
                MAX_DATA,
                "velocity"@,
                velocity@,
                v as u32,
                MAX_DATA,
            );
        },
        (
            MessageTemplate::NoteOff { channel, note, velocity },
            MidiEvent::Voice(ChannelMessage::NoteOff { channel: c, key: k, velocity: v }),
        ) => {
            lemma_match3_generates(
                "channel"@,
                channel@,
                c as u32,
                MAX_CHANNEL,
                "note"@,
                note@,
                k as u32,
                MAX_DATA,
                "velocity"@,
                velocity@,
                v as u32,
                MAX_DATA,
            );
        },
        (
            MessageTemplate::PolyPressure { channel, note, pressure },
            MidiEvent::Voice(ChannelMessage::PolyAftertouch { channel: c, key: k, pressure: p }),
        ) => {
            lemma_match3_generates(
                "channel"@,
                channel@,
                c as u32,
                MAX_CHANNEL,
                "note"@,
                note@,
                k as u32,
                MAX_DATA,
                "pressure"@,
                pressure@,
                p as u32,
                MAX_DATA,
            );
        },
        (
            MessageTemplate::ControlChange { channel, controller, value },
            MidiEvent::Voice(ChannelMessage::ControlChange { channel: c, controller: k, value: v }),
        ) => {
            lemma_match3_generates(
                "channel"@,
                channel@,
                c as u32,
                MAX_CHANNEL,
                "controller"@,
                controller@,
                k as u32,
                MAX_DATA,
                "value"@,
                value@,
                v as u32,
                MAX_DATA,
            );
        },
        (
            MessageTemplate::ProgramChange { channel, program },
            MidiEvent::Voice(ChannelMessage::ProgramChange { channel: c, program: p }),
        ) => {
            lemma_match2_generates(
                "channel"@,
                channel@,
                c as u32,
                MAX_CHANNEL,
                "program"@,
                program@,
                p as u32,
                MAX_DATA,
            );
        },
        (
            MessageTemplate::ChannelPressure { channel, pressure },
            MidiEvent::Voice(ChannelMessage::ChannelAftertouch { channel: c, pressure: p }),
        ) => {
            lemma_match2_generates(
                "channel"@,
                channel@,
                c as u32,
                MAX_CHANNEL,
                "pressure"@,
                pressure@,
                p as u32,
                MAX_DATA,
            );
        },
        (
            MessageTemplate::PitchBend { channel, bend },
            MidiEvent::Voice(ChannelMessage::PitchBend { channel: c, bend: b }),
        ) => {
            lemma_match2_generates(
                "channel"@,
                channel@,
                c as u32,
                MAX_CHANNEL,
                "bend"@,
                bend@,
                b as u32,
                MAX_BEND,
            );
        },
        _ => {},
    }
}

/// The number that a match generates for a field depends on the entries
/// only through the mapping that they amount to.
pub proof fn lemma_generate_field_by_map(
    a: Seq<FieldMatchView>,
    b: Seq<FieldMatchView>,
    field: Seq<char>,
    specs: Seq<Number>,
    max: u32,
)
    requires
        spec_as_map(a) == spec_as_map(b),
    ensures
        spec_generate_field(a, field, specs, max) == spec_generate_field(b, field, specs, max),
{
    lemma_lookup_is_map(a, field);
    lemma_lookup_is_map(b, field);
}

/// What a template generates depends on the entries of a match only
/// through the mapping that they amount to.
pub proof fn lemma_generate_by_map(
    template: MessageTemplate,
    a: Seq<FieldMatchView>,
    b: Seq<FieldMatchView>,
)
    requires
        spec_as_map(a) == spec_as_map(b),
    ensures
        template.spec_generate(a) == template.spec_generate(b),
{
    match template {
        MessageTemplate::NoteOn { channel, note, velocity } => {
            lemma_generate_field_by_map(a, b, "channel"@, channel@, MAX_CHANNEL);
            lemma_generate_field_by_map(a, b, "note"@, note@, MAX_DATA);
            lemma_generate_field_by_map(a, b, "velocity"@, velocity@, MAX_DATA);
        },
        MessageTemplate::NoteOff { channel, note, velocity } => {
            lemma_generate_field_by_map(a, b, "channel"@, channel@, MAX_CHANNEL);
            lemma_generate_field_by_map(a, b, "note"@, note@, MAX_DATA);
            lemma_generate_field_by_map(a, b, "velocity"@, velocity@, MAX_DATA);
        },
        MessageTemplate::ControlChange { channel, controller, value } => {
            lemma_generate_field_by_map(a, b, "channel"@, channel@, MAX_CHANNEL);
            lemma_generate_field_by_map(a, b, "controller"@, controller@, MAX_DATA);
            lemma_generate_field_by_map(a, b, "value"@, value@, MAX_DATA);
        },
        MessageTemplate::ProgramChange { channel, program } => {
            lemma_generate_field_by_map(a, b, "channel"@, channel@, MAX_CHANNEL);
            lemma_generate_field_by_map(a, b, "program"@, program@, MAX_DATA);
        },
        MessageTemplate::PolyPressure { channel, note, pressure } => {
            lemma_generate_field_by_map(a, b, "channel"@, channel@, MAX_CHANNEL);
            lemma_generate_field_by_map(a, b, "note"@, note@, MAX_DATA);
            lemma_generate_field_by_map(a, b, "pressure"@, pressure@, MAX_DATA);
        },
        MessageTemplate::ChannelPressure { channel, pressure } => {
            lemma_generate_field_by_map(a, b, "channel"@, channel@, MAX_CHANNEL);
            lemma_generate_field_by_map(a, b, "pressure"@, pressure@, MAX_DATA);
        },
        MessageTemplate::PitchBend { channel, bend } => {
            lemma_generate_field_by_map(a, b, "channel"@, channel@, MAX_CHANNEL);
            lemma_generate_field_by_map(a, b, "bend"@, bend@, MAX_BEND);
        },
    }
}

/// A transformer whose output template is its input template and whose
/// renaming leaves every name alone hands a well formed message on
/// unchanged exactly when the template matches it.
pub proof fn lemma_identity_transform(
    transformer: Transformer<MessageTemplate, MessageTemplate>,
    msg: MidiEvent,
)
    requires
        transformer.input == transformer.output,
        transformer.field_map.is_identity(),
        msg@.wf(),
    ensures
        transformer.spec_transform(msg) == Some(msg) <==> transformer.input.spec_matches(msg)
            is Some,
{
    if let Some(entries) = transformer.input.spec_matches(msg) {
        lemma_rename_identity(entries, transformer.field_map@);
        lemma_generate_matched_message(transformer.input, msg);
    }
}

} // verus!
