//! NRPN commands on the event stream: a command travels as three or four
//! Control Change messages on channel 0.

use vstd::prelude::*;
use crate::midi::codec::parse;
use crate::midi::event::{all_wf, event_views, ChannelMessage, EventView, MidiEvent};
use crate::midi::roundtrip::{encode_all, lemma_parse_encode_all, voice_events};
use crate::sq::message::{
    fits, lemma_parse_emitted, spec_parse, starts_command, Nrpn, Parsed, DATA_COARSE,
    DATA_DECREMENT, DATA_FINE, DATA_INCREMENT, ID, SELECT_LSB, SELECT_MSB,
};

verus! {

/// The Control Change message on channel 0 that sets `controller` to `value`.
pub open spec fn control_change(controller: u8, value: u8) -> ChannelMessage {
    ChannelMessage::ControlChange { channel: 0, controller, value }
}

/// What the head of a sequence of events holds: what the head of their
/// canonical encodings holds, counted in events.
pub open spec fn spec_fold(events: Seq<EventView>) -> Parsed {
    match spec_parse(encode_all(events)) {
        Parsed::Command(command, len) => Parsed::Command(command, (len / 3) as usize),
        other => other,
    }
}

impl Nrpn {
    /// The messages that the command travels as: the two selectors, then
    /// the command word.
    pub open spec fn spec_messages(self) -> Seq<ChannelMessage> {
        let ID(msb, lsb) = self.spec_id();
        let select = seq![control_change(SELECT_MSB, msb), control_change(SELECT_LSB, lsb)];
        match self {
            Nrpn::Absolute(_, coarse, fine) => select + seq![
                control_change(DATA_COARSE, coarse),
                control_change(DATA_FINE, fine),
            ],
            Nrpn::Increment(_) => select + seq![control_change(DATA_INCREMENT, 0x00)],
            Nrpn::Decrement(_) => select + seq![control_change(DATA_DECREMENT, 0x00)],
            Nrpn::Get(_) => select + seq![control_change(DATA_INCREMENT, 0x7F)],
        }
    }

    /// Unfolds the command into the events that it travels as.
    pub fn to_events(&self) -> (events: Vec<MidiEvent>)
        ensures
            event_views(events@) == voice_events(self.spec_messages()),
    {
        let id: ID = match self {
            Nrpn::Absolute(id, _, _) => *id,
            Nrpn::Increment(id) => *id,
            Nrpn::Decrement(id) => *id,
            Nrpn::Get(id) => *id,
        };
        let mut events: Vec<MidiEvent> = Vec::new();
        events.push(cc_event(SELECT_MSB, id.0));
        events.push(cc_event(SELECT_LSB, id.1));
        match self {
            Nrpn::Absolute(_, coarse, fine) => {
                events.push(cc_event(DATA_COARSE, *coarse));
                events.push(cc_event(DATA_FINE, *fine));
            },
            Nrpn::Increment(_) => {
                events.push(cc_event(DATA_INCREMENT, 0x00));
            },
            Nrpn::Decrement(_) => {
                events.push(cc_event(DATA_DECREMENT, 0x00));
            },
            Nrpn::Get(_) => {
                events.push(cc_event(DATA_INCREMENT, 0x7F));
            },
        }
        assert(event_views(events@) =~= voice_events(self.spec_messages()));
        events
    }

    /// Folds the head of a sequence of events into a command: see
    /// [`spec_fold`]. A sequence that could still grow into a command is
    /// incomplete; one that no command starts with is left to be handled
    /// as the plain events that it is.
    pub fn from_events(events: &[MidiEvent]) -> (r: Parsed)
        requires
            all_wf(event_views(events@)),
        ensures
            r == spec_fold(event_views(events@)),
            r matches Parsed::Command(command, count) ==> command.wf() && count
                <= events@.len(),
    {
        let ghost views = event_views(events@);
        let n: usize = events.len();
        let limit: usize = if n < 12 {
            n
        } else {
            12
        };
        let mut bytes: Vec<u8> = Vec::new();
        let mut k: usize = 0;
        assert(views.take(0) =~= Seq::<EventView>::empty());
        while k < limit
            invariant
                k <= limit <= n,
                n == events.len(),
                views == event_views(events@),
                all_wf(views),
                bytes@ == encode_all(views.take(k as int)),
                bytes@.len() >= k,
            decreases limit - k,
        {
            assert(views[k as int].wf());
            assert(events@[k as int]@ == views[k as int]);
            let ghost before = bytes@;
            let _written = events[k].write(&mut bytes);
            proof {
                lemma_encode_all_push(views.take(k as int), views[k as int]);
                assert(views.take(k as int).push(views[k as int]) =~= views.take(k + 1));
                assert(views[k as int].spec_bytes().len() >= 1);
            }
            k += 1;
        }
        proof {
            let head = views.take(limit as int);
            let tail = views.skip(limit as int);
            lemma_encode_all_add(head, tail);
            assert(head + tail =~= views);
            if limit < n {
                lemma_parse_head(encode_all(head), encode_all(tail));
            } else {
                assert(tail =~= Seq::<EventView>::empty());
                assert(encode_all(head) + encode_all(tail) =~= encode_all(head));
            }
            lemma_folded_count(views);
        }
        match Nrpn::parse(bytes.as_slice()) {
            Parsed::Command(command, len) => Parsed::Command(command, len / 3),
            other => other,
        }
    }
}

/// The event of a Control Change message on channel 0.
fn cc_event(controller: u8, value: u8) -> (event: MidiEvent)
    ensures
        event@ == EventView::Voice(control_change(controller, value)),
{
    MidiEvent::Voice(ChannelMessage::ControlChange { channel: 0, controller, value })
}

/// The encodings of events with one more event behind them.
pub proof fn lemma_encode_all_push(events: Seq<EventView>, event: EventView)
    ensures
        encode_all(events.push(event)) == encode_all(events) + event.spec_bytes(),
    decreases events.len(),
{
    let longer = events.push(event);
    if events.len() == 0 {
        assert(longer.skip(1) =~= Seq::<EventView>::empty());
        assert(longer[0] == event);
        assert(encode_all(longer.skip(1)) =~= Seq::<u8>::empty());
        assert(encode_all(events) =~= Seq::<u8>::empty());
        assert(encode_all(longer) =~= encode_all(events) + event.spec_bytes());
    } else {
        assert(longer.skip(1) =~= events.skip(1).push(event));
        assert(longer[0] == events[0]);
        lemma_encode_all_push(events.skip(1), event);
        assert(encode_all(longer) =~= encode_all(events) + event.spec_bytes());
    }
}

/// The encodings of two sequences of events, one behind the other.
pub proof fn lemma_encode_all_add(a: Seq<EventView>, b: Seq<EventView>)
    ensures
        encode_all(a + b) == encode_all(a) + encode_all(b),
    decreases b.len(),
{
    if b.len() == 0 {
        assert(a + b =~= a);
        assert(encode_all(a) + encode_all(b) =~= encode_all(a));
    } else {
        lemma_encode_all_add(a.push(b[0]), b.skip(1));
        lemma_encode_all_push(a, b[0]);
        assert(a.push(b[0]) + b.skip(1) =~= a + b);
        assert(encode_all(a + b) =~= encode_all(a) + encode_all(b));
    }
}

/// What the head of a byte sequence holds is settled by its first twelve bytes.
pub proof fn lemma_parse_head(head: Seq<u8>, tail: Seq<u8>)
    requires
        head.len() >= 12,
    ensures
        spec_parse(head + tail) == spec_parse(head),
{
    let whole = head + tail;
    assert forall|k: int| 0 <= k < 12 implies fits(whole, k) == fits(head, k) by {
        assert(whole[k] == head[k]);
        assert(whole[7] == head[7]);
    }
    assert(starts_command(whole, 12) == starts_command(head, 12));
    assert(starts_command(whole, 9) == starts_command(head, 9));
    assert(whole[2] == head[2] && whole[5] == head[5] && whole[7] == head[7] && whole[8]
        == head[8] && whole[11] == head[11]);
}

/// Where the encodings of well formed events open with the Control Change
/// status of channel 0, the first event is a message of three bytes and the
/// encodings of the others follow it.
proof fn lemma_leading_message(events: Seq<EventView>)
    requires
        all_wf(events),
        encode_all(events).len() >= 1,
        encode_all(events)[0] == 0xB0,
    ensures
        events.len() >= 1,
        encode_all(events).len() >= 3,
        all_wf(events.skip(1)),
        encode_all(events.skip(1)) == encode_all(events).skip(3),
{
    let bytes = encode_all(events);
    let first = events[0];
    assert(first.wf());
    assert(bytes[0] == first.spec_bytes()[0]);
    assert(first is Voice);
    assert(first.spec_bytes().len() == 3);
    let rest = events.skip(1);
    assert(bytes.skip(3) =~= encode_all(rest));
    assert forall|k: int| 0 <= k < rest.len() implies (#[trigger] rest[k]).wf() by {
        assert(rest[k] == events[k + 1]);
    }
}

/// A command at the head of the encodings of well formed events takes up
/// whole events: three bytes each.
proof fn lemma_folded_count(events: Seq<EventView>)
    requires
        all_wf(events),
    ensures
        spec_parse(encode_all(events)) matches Parsed::Command(command, len) ==> len == 3 * (len
            / 3) && len / 3 <= events.len(),
{
    let bytes = encode_all(events);
    if let Parsed::Command(command, len) = spec_parse(bytes) {
        assert(len == 12 || len == 9);
        assert(starts_command(bytes, len as int));
        assert(fits(bytes, 0) && fits(bytes, 3) && fits(bytes, 6));
        lemma_leading_message(events);
        let one = events.skip(1);
        assert(encode_all(one)[0] == bytes[3]);
        lemma_leading_message(one);
        let two = one.skip(1);
        assert(encode_all(two)[0] == encode_all(one)[3]);
        assert(encode_all(one)[3] == bytes[6]);
        lemma_leading_message(two);
        if len == 12 {
            assert(fits(bytes, 9));
            let three = two.skip(1);
            assert(encode_all(three)[0] == encode_all(two)[3]);
            assert(encode_all(two)[3] == encode_all(one)[6]);
            assert(encode_all(one)[6] == bytes[9]);
            lemma_leading_message(three);
        }
    }
}

/// A command's byte pattern is the canonical encoding of the messages that
/// it travels as, which are well formed.
pub proof fn lemma_pattern_is_messages(command: Nrpn)
    requires
        command.wf(),
    ensures
        all_wf(voice_events(command.spec_messages())),
        encode_all(voice_events(command.spec_messages())) == command.spec_bytes(),
{
    let messages = command.spec_messages();
    let events = voice_events(messages);
    assert forall|k: int| 0 <= k < events.len() implies (#[trigger] events[k]).wf() by {
        assert(events[k] == EventView::Voice(messages[k]));
    }
    let e0 = events[0];
    let e1 = events[1];
    let e2 = events[2];
    assert(encode_all(Seq::<EventView>::empty()) =~= Seq::<u8>::empty());
    lemma_encode_all_push(Seq::empty(), e0);
    lemma_encode_all_push(seq![e0], e1);
    lemma_encode_all_push(seq![e0, e1], e2);
    assert(Seq::<EventView>::empty().push(e0) =~= seq![e0]);
    assert(seq![e0].push(e1) =~= seq![e0, e1]);
    assert(seq![e0, e1].push(e2) =~= seq![e0, e1, e2]);
    if command is Absolute {
        let e3 = events[3];
        lemma_encode_all_push(seq![e0, e1, e2], e3);
        assert(seq![e0, e1, e2].push(e3) =~= events);
        assert(encode_all(events) =~= command.spec_bytes());
    } else {
        assert(seq![e0, e1, e2] =~= events);
        assert(encode_all(events) =~= command.spec_bytes());
    }
}

/// The decoder unfolds a command's byte pattern into the messages that the
/// command travels as, and folding those messages gives the command back.
pub proof fn lemma_fold_unfold(command: Nrpn, running: Option<u8>)
    requires
        command.wf(),
    ensures
        parse(command.spec_bytes(), running).events == voice_events(command.spec_messages()),
        parse(command.spec_bytes(), running).end == command.spec_bytes().len(),
        parse(command.spec_bytes(), running).skipped == Seq::<u8>::empty(),
        spec_fold(voice_events(command.spec_messages())) == Parsed::Command(
            command,
            command.spec_messages().len() as usize,
        ),
{
    lemma_pattern_is_messages(command);
    lemma_parse_encode_all(voice_events(command.spec_messages()), running);
    lemma_parse_emitted(command, Seq::empty());
    assert(command.spec_bytes() + Seq::<u8>::empty() =~= command.spec_bytes());
}

} // verus!
