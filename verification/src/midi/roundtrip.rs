//! What the decoder makes of encoded events: the canonical encoding, running
//! status, System Exclusive runs with realtime bytes in them, and noise
//! before a message.

use vstd::prelude::*;
use crate::midi::codec::{
    data_of, message_step, parse, parse_from, realtime_of, scan_data, scan_sysex, skip_step, step,
    sysex_step, Scan,
};
use crate::midi::event::{
    all_data_bytes, all_wf, data_len, is_channel_status, is_data_byte, is_realtime_byte,
    lemma_decode_encode, ChannelMessage, EventView, SYSEX_END, SYSEX_START,
};

verus! {

/// The canonical encodings of `events`, one behind the other.
pub open spec fn encode_all(events: Seq<EventView>) -> Seq<u8>
    decreases events.len(),
{
    if events.len() == 0 {
        Seq::empty()
    } else {
        events[0].spec_bytes() + encode_all(events.skip(1))
    }
}

/// Every byte of `s` is a data byte or a realtime status.
pub open spec fn all_data_or_realtime(s: Seq<u8>) -> bool {
    forall|k: int| 0 <= k < s.len() ==> is_data_byte(#[trigger] s[k]) || is_realtime_byte(s[k])
}

/// A byte that the decoder skips wherever it meets it outside a message,
/// as long as no status is running: a data byte, a System Common status
/// (`0xF1..=0xF7`) or System Reset.
pub open spec fn is_noise(b: u8) -> bool {
    is_data_byte(b) || (0xF0 < b < 0xF8) || b == 0xFF
}

/// Every byte of `s` is noise.
pub open spec fn all_noise(s: Seq<u8>) -> bool {
    forall|k: int| 0 <= k < s.len() ==> is_noise(#[trigger] s[k])
}

/// The messages of `messages` as events.
pub open spec fn voice_events(messages: Seq<ChannelMessage>) -> Seq<EventView> {
    Seq::new(messages.len(), |k: int| EventView::Voice(messages[k]))
}

/// The data bytes of `messages`, one message behind the other, with no
/// status byte among them.
pub open spec fn data_run(messages: Seq<ChannelMessage>) -> Seq<u8>
    decreases messages.len(),
{
    if messages.len() == 0 {
        Seq::empty()
    } else {
        messages[0].spec_data() + data_run(messages.skip(1))
    }
}

/// Every message of `messages` is well formed and has the status `status`.
pub open spec fn all_of_status(messages: Seq<ChannelMessage>, status: u8) -> bool {
    forall|k: int|
        0 <= k < messages.len() ==> (#[trigger] messages[k]).wf() && messages[k].spec_status()
            == status
}

/// A sequence of data bytes holds no realtime message and is its own data.
proof fn lemma_plain_data(s: Seq<u8>)
    requires
        all_data_bytes(s),
    ensures
        data_of(s) == s,
        realtime_of(s) == Seq::<EventView>::empty(),
    decreases s.len(),
{
    if s.len() == 0 {
        assert(data_of(s) =~= s);
    } else {
        lemma_plain_data(s.drop_last());
        assert(s.drop_last().push(s.last()) =~= s);
    }
}

/// A body of exactly `need` data bytes is whole.
proof fn lemma_scan_plain(bytes: Seq<u8>, from: int, need: nat)
    requires
        0 <= from,
        from + need <= bytes.len(),
        all_data_bytes(bytes.subrange(from, from + need)),
    ensures
        scan_data(bytes, from, need) == (Scan::Complete { end: from + need }),
    decreases need,
{
    if need > 0 {
        assert(bytes[from] == bytes.subrange(from, from + need)[0]);
        assert forall|k: int| 0 <= k < need - 1 implies is_data_byte(
            #[trigger] bytes.subrange(from + 1, from + need)[k],
        ) by {
            assert(bytes.subrange(from + 1, from + need)[k] == bytes.subrange(from, from + need)[k
                + 1]);
        }
        lemma_scan_plain(bytes, from + 1, (need - 1) as nat);
    }
}

/// A run of data and realtime bytes that ends at a terminator is a whole
/// System Exclusive body.
proof fn lemma_scan_sysex_body(bytes: Seq<u8>, from: int, close: int)
    requires
        0 <= from <= close < bytes.len(),
        all_data_or_realtime(bytes.subrange(from, close)),
        bytes[close] == SYSEX_END,
    ensures
        scan_sysex(bytes, from) == (Scan::Complete { end: close + 1 }),
    decreases close - from,
{
    if from < close {
        assert(bytes[from] == bytes.subrange(from, close)[0]);
        assert forall|k: int| 0 <= k < close - from - 1 implies is_data_byte(
            #[trigger] bytes.subrange(from + 1, close)[k],
        ) || is_realtime_byte(bytes.subrange(from + 1, close)[k]) by {
            assert(bytes.subrange(from + 1, close)[k] == bytes.subrange(from, close)[k + 1]);
        }
        lemma_scan_sysex_body(bytes, from + 1, close);
    }
}

/// The step that the decoder takes where the canonical encoding of a well
/// formed event starts: it yields that event alone and ends behind its bytes.
proof fn lemma_step_encoded(bytes: Seq<u8>, i: int, running: Option<u8>, event: EventView)
    requires
        event.wf(),
        0 <= i,
        i + event.spec_bytes().len() <= bytes.len(),
        bytes.subrange(i, i + event.spec_bytes().len()) == event.spec_bytes(),
    ensures
        step(bytes, i, running) matches Some(st) && st.events == seq![event] && st.next == i
            + event.spec_bytes().len() && st.skipped == Seq::<u8>::empty(),
        event matches EventView::Voice(m) ==> step(bytes, i, running).unwrap().running == Some(
            m.spec_status(),
        ),
{
    let enc = event.spec_bytes();
    let n = enc.len() as int;
    assert forall|k: int| 0 <= k < n implies bytes[i + k] == enc[k] by {
        assert(bytes.subrange(i, i + n)[k] == bytes[i + k]);
    }
    match event {
        EventView::Voice(m) => {
            lemma_decode_encode(m);
            let status = m.spec_status();
            let need = data_len(status);
            assert(bytes[i] == enc[0]);
            assert(bytes.subrange(i + 1, i + 1 + need) =~= m.spec_data()) by {
                assert forall|k: int| 0 <= k < need implies bytes.subrange(i + 1, i + 1 + need)[k]
                    == m.spec_data()[k] by {
                    assert(bytes[i + 1 + k] == enc[1 + k]);
                }
            }
            lemma_scan_plain(bytes, i + 1, need);
            lemma_plain_data(m.spec_data());
            assert(Seq::<EventView>::empty().push(event) =~= seq![event]);
        },
        EventView::SysEx(body) => {
            let close = i + 1 + body.len();
            assert(bytes[i] == enc[0]);
            assert(bytes[close] == enc[1 + body.len() as int]);
            assert(bytes.subrange(i + 1, close) =~= body) by {
                assert forall|k: int| 0 <= k < body.len() implies bytes.subrange(i + 1, close)[k]
                    == body[k] by {
                    assert(bytes[i + 1 + k] == enc[1 + k]);
                }
            }
            lemma_scan_sysex_body(bytes, i + 1, close);
            lemma_plain_data(body);
            assert(Seq::<EventView>::empty().push(event) =~= seq![event]);
        },
        EventView::Realtime(b) => {
            assert(bytes[i] == enc[0]);
        },
    }
}

/// Decoding from the index at which the encodings of `events` start, with
/// nothing behind them, yields `events`.
proof fn lemma_parse_encoded_from(
    bytes: Seq<u8>,
    i: int,
    running: Option<u8>,
    events: Seq<EventView>,
)
    requires
        all_wf(events),
        0 <= i <= bytes.len(),
        bytes.subrange(i, bytes.len() as int) == encode_all(events),
    ensures
        parse_from(bytes, i, running).events == events,
        parse_from(bytes, i, running).end == bytes.len(),
        parse_from(bytes, i, running).skipped == Seq::<u8>::empty(),
    decreases events.len(),
{
    let len = bytes.len() as int;
    if events.len() == 0 {
        assert(bytes.subrange(i, len).len() == 0);
        assert(parse_from(bytes, i, running).events =~= events);
    } else {
        let first = events[0];
        let rest = events.skip(1);
        let n = first.spec_bytes().len() as int;
        assert(first.wf());
        assert(n >= 1);
        assert(bytes.subrange(i, len).len() == n + encode_all(rest).len());
        assert(bytes.subrange(i, i + n) =~= first.spec_bytes()) by {
            assert forall|k: int| 0 <= k < n implies bytes.subrange(i, i + n)[k]
                == first.spec_bytes()[k] by {
                assert(bytes.subrange(i, len)[k] == encode_all(events)[k]);
            }
        }
        assert(bytes.subrange(i + n, len) =~= encode_all(rest)) by {
            assert forall|k: int| 0 <= k < len - i - n implies bytes.subrange(i + n, len)[k]
                == encode_all(rest)[k] by {
                assert(bytes.subrange(i, len)[n + k] == encode_all(events)[n + k]);
            }
        }
        lemma_step_encoded(bytes, i, running, first);
        let st = step(bytes, i, running).unwrap();
        assert forall|k: int| 0 <= k < rest.len() implies (#[trigger] rest[k]).wf() by {
            assert(rest[k] == events[k + 1]);
        }
        lemma_parse_encoded_from(bytes, i + n, st.running, rest);
        assert(seq![first] + rest =~= events);
        assert(Seq::<u8>::empty() + Seq::<u8>::empty() =~= Seq::<u8>::empty());
    }
}

/// Decoding the canonical encodings of well formed events, one behind the
/// other, yields exactly those events in order, uses up every byte and skips
/// none, whatever status was running before.
pub proof fn lemma_parse_encode_all(events: Seq<EventView>, running: Option<u8>)
    requires
        all_wf(events),
    ensures
        parse(encode_all(events), running).events == events,
        parse(encode_all(events), running).end == encode_all(events).len(),
        parse(encode_all(events), running).skipped == Seq::<u8>::empty(),
{
    let bytes = encode_all(events);
    assert(bytes.subrange(0, bytes.len() as int) =~= bytes);
    lemma_parse_encoded_from(bytes, 0, running, events);
}

/// Decoding the canonical encoding of one well formed event yields that
/// event as the sole output and consumes exactly its bytes.
pub proof fn lemma_parse_encode(event: EventView, running: Option<u8>)
    requires
        event.wf(),
    ensures
        parse(event.spec_bytes(), running).events == seq![event],
        parse(event.spec_bytes(), running).end == event.spec_bytes().len(),
        parse(event.spec_bytes(), running).skipped == Seq::<u8>::empty(),
{
    let events = seq![event];
    assert(events.skip(1) =~= Seq::<EventView>::empty());
    assert(encode_all(events.skip(1)) =~= Seq::<u8>::empty());
    assert(encode_all(events) =~= event.spec_bytes());
    lemma_parse_encode_all(events, running);
}

/// A System Exclusive run with realtime bytes among its data decodes to
/// those realtime messages in order, then to a single run whose body is the
/// data bytes alone; every byte is used up and none is skipped.
pub proof fn lemma_parse_sysex_with_realtime(mixed: Seq<u8>, running: Option<u8>)
    requires
        all_data_or_realtime(mixed),
    ensures
        ({
            let bytes = seq![SYSEX_START] + mixed + seq![SYSEX_END];
            let parsed = parse(bytes, running);
            &&& parsed.events == realtime_of(mixed).push(EventView::SysEx(data_of(mixed)))
            &&& parsed.end == bytes.len()
            &&& parsed.skipped == Seq::<u8>::empty()
            &&& parsed.running == None::<u8>
        }),
{
    let bytes = seq![SYSEX_START] + mixed + seq![SYSEX_END];
    let close = 1 + mixed.len() as int;
    assert(bytes.subrange(1, close) =~= mixed);
    lemma_scan_sysex_body(bytes, 1, close);
    let st = sysex_step(bytes, 0).unwrap();
    assert(step(bytes, 0, running) == Some(st));
    let rest = parse_from(bytes, st.next, st.running);
    assert(st.events + rest.events =~= st.events);
    assert(st.skipped + rest.skipped =~= Seq::<u8>::empty());
}

/// Decoding a run of data bytes under the running status that the messages share.
proof fn lemma_parse_data_run_from(
    bytes: Seq<u8>,
    i: int,
    status: u8,
    messages: Seq<ChannelMessage>,
)
    requires
        is_channel_status(status),
        all_of_status(messages, status),
        0 <= i <= bytes.len(),
        bytes.subrange(i, bytes.len() as int) == data_run(messages),
    ensures
        parse_from(bytes, i, Some(status)).events == voice_events(messages),
        parse_from(bytes, i, Some(status)).end == bytes.len(),
        parse_from(bytes, i, Some(status)).skipped == Seq::<u8>::empty(),
    decreases messages.len(),
{
    let len = bytes.len() as int;
    if messages.len() == 0 {
        assert(bytes.subrange(i, len).len() == 0);
        assert(parse_from(bytes, i, Some(status)).events =~= voice_events(messages));
    } else {
        let first = messages[0];
        let rest = messages.skip(1);
        lemma_decode_encode(first);
        let need = data_len(status);
        assert(first.spec_data().len() == need);
        assert(bytes.subrange(i, len).len() == need + data_run(rest).len());
        assert(bytes.subrange(i, i + need) =~= first.spec_data()) by {
            assert forall|k: int| 0 <= k < need implies bytes.subrange(i, i + need)[k]
                == first.spec_data()[k] by {
                assert(bytes.subrange(i, len)[k] == data_run(messages)[k]);
            }
        }
        assert(bytes.subrange(i + need, len) =~= data_run(rest)) by {
            assert forall|k: int| 0 <= k < len - i - need implies bytes.subrange(i + need, len)[k]
                == data_run(rest)[k] by {
                assert(bytes.subrange(i, len)[need + k] == data_run(messages)[need + k]);
            }
        }
        assert(bytes[i] == first.spec_data()[0]) by {
            assert(bytes.subrange(i, i + need)[0] == bytes[i]);
        }
        lemma_scan_plain(bytes, i, need);
        lemma_plain_data(first.spec_data());
        let st = message_step(bytes, i, i, status).unwrap();
        assert(step(bytes, i, Some(status)) == Some(st));
        assert(st.events =~= seq![EventView::Voice(first)]);
        assert forall|k: int| 0 <= k < rest.len() implies (#[trigger] rest[k]).wf()
            && rest[k].spec_status() == status by {
            assert(rest[k] == messages[k + 1]);
        }
        lemma_parse_data_run_from(bytes, i + need, status, rest);
        assert(seq![EventView::Voice(first)] + voice_events(rest) =~= voice_events(messages));
        assert(Seq::<u8>::empty() + Seq::<u8>::empty() =~= Seq::<u8>::empty());
    }
}

/// Running status: a message in its canonical encoding, followed by the
/// data bytes alone of further messages of the same status, decodes to all
/// of those messages in order.
pub proof fn lemma_parse_running_status(
    first: ChannelMessage,
    more: Seq<ChannelMessage>,
    running: Option<u8>,
)
    requires
        first.wf(),
        all_of_status(more, first.spec_status()),
    ensures
        ({
            let bytes = first.spec_bytes() + data_run(more);
            let parsed = parse(bytes, running);
            &&& parsed.events == seq![EventView::Voice(first)] + voice_events(more)
            &&& parsed.end == bytes.len()
            &&& parsed.skipped == Seq::<u8>::empty()
        }),
{
    let bytes = first.spec_bytes() + data_run(more);
    let n = first.spec_bytes().len() as int;
    let len = bytes.len() as int;
    lemma_decode_encode(first);
    assert(bytes.subrange(0, n) =~= first.spec_bytes());
    assert(bytes.subrange(n, len) =~= data_run(more));
    lemma_step_encoded(bytes, 0, running, EventView::Voice(first));
    let st = step(bytes, 0, running).unwrap();
    lemma_parse_data_run_from(bytes, n, first.spec_status(), more);
    assert(Seq::<u8>::empty() + Seq::<u8>::empty() =~= Seq::<u8>::empty());
}

/// Decoding from inside a prefix of noise that ends at index `clean`, with
/// the encodings of `events` behind it and no status running.
proof fn lemma_parse_noise_from(bytes: Seq<u8>, i: int, clean: int, events: Seq<EventView>)
    requires
        all_wf(events),
        0 <= i <= clean <= bytes.len(),
        all_noise(bytes.subrange(0, clean)),
        bytes.subrange(clean, bytes.len() as int) == encode_all(events),
    ensures
        parse_from(bytes, i, None).events == events,
        parse_from(bytes, i, None).end == bytes.len(),
        parse_from(bytes, i, None).skipped == bytes.subrange(i, clean),
    decreases clean - i,
{
    if i == clean {
        lemma_parse_encoded_from(bytes, i, None, events);
        assert(bytes.subrange(i, clean) =~= Seq::<u8>::empty());
    } else {
        assert(bytes[i] == bytes.subrange(0, clean)[i]);
        assert(is_noise(bytes[i]));
        assert(step(bytes, i, None) == Some(skip_step(bytes, i)));
        lemma_parse_noise_from(bytes, i + 1, clean, events);
        assert(Seq::<EventView>::empty() + events =~= events);
        assert(seq![bytes[i]] + bytes.subrange(i + 1, clean) =~= bytes.subrange(i, clean));
    }
}

/// Resynchronisation: with no status running, noise before the canonical
/// encodings of well formed events is skipped byte by byte, and the events
/// behind it are decoded exactly.
pub proof fn lemma_parse_after_noise(noise: Seq<u8>, events: Seq<EventView>)
    requires
        all_noise(noise),
        all_wf(events),
    ensures
        ({
            let bytes = noise + encode_all(events);
            let parsed = parse(bytes, None);
            &&& parsed.events == events
            &&& parsed.end == bytes.len()
            &&& parsed.skipped == noise
        }),
{
    let bytes = noise + encode_all(events);
    let clean = noise.len() as int;
    assert(bytes.subrange(0, clean) =~= noise);
    assert(bytes.subrange(clean, bytes.len() as int) =~= encode_all(events));
    lemma_parse_noise_from(bytes, 0, clean, events);
}

} // verus!
