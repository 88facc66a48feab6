//! The streaming byte decoder: bytes in, events out.
//!
//! The decoder reads as many whole events as a buffer holds and stops before
//! an incomplete one, so that the caller can keep the tail and offer it again
//! with more bytes behind it. A byte that cannot start or continue a message
//! is skipped and reported; decoding then goes on with the next byte.

use vstd::prelude::*;
use crate::buffer::{buffer_advance, buffer_chunk, buffered};
use crate::midi::event::{
    all_data_bytes, all_wf, data_len, event_views, is_channel_status, is_data_byte,
    is_realtime_byte, lemma_decoded_is_wf, ChannelMessage, EventView, MidiEvent, SYSEX_END,
    SYSEX_START,
};

verus! {

/// How the scan of one message's body ended.
pub enum Scan {
    /// The body is whole; the message ends just before index `end`.
    Complete { end: int },
    /// The buffer ended first.
    Incomplete,
    /// A status byte that cannot stand inside a message came first.
    Broken,
}

/// Scans the body of a channel message from index `from` for `need` data
/// bytes. Realtime bytes may stand among them and are passed over.
pub open spec fn scan_data(bytes: Seq<u8>, from: int, need: nat) -> Scan
    decreases bytes.len() - from,
{
    if need == 0 {
        Scan::Complete { end: from }
    } else if from < 0 || from >= bytes.len() {
        Scan::Incomplete
    } else if is_data_byte(bytes[from]) {
        scan_data(bytes, from + 1, (need - 1) as nat)
    } else if is_realtime_byte(bytes[from]) {
        scan_data(bytes, from + 1, need)
    } else {
        Scan::Broken
    }
}

/// Scans the body of a System Exclusive run from index `from` up to and
/// including its terminator. Realtime bytes may stand in the body.
pub open spec fn scan_sysex(bytes: Seq<u8>, from: int) -> Scan
    decreases bytes.len() - from,
{
    if from < 0 || from >= bytes.len() {
        Scan::Incomplete
    } else if bytes[from] == SYSEX_END {
        Scan::Complete { end: from + 1 }
    } else if is_data_byte(bytes[from]) || is_realtime_byte(bytes[from]) {
        scan_sysex(bytes, from + 1)
    } else {
        Scan::Broken
    }
}

/// The data bytes of `s`, in order.
pub open spec fn data_of(s: Seq<u8>) -> Seq<u8>
    decreases s.len(),
{
    if s.len() == 0 {
        Seq::empty()
    } else if is_data_byte(s.last()) {
        data_of(s.drop_last()).push(s.last())
    } else {
        data_of(s.drop_last())
    }
}

/// The realtime messages among the bytes of `s`, in order.
pub open spec fn realtime_of(s: Seq<u8>) -> Seq<EventView>
    decreases s.len(),
{
    if s.len() == 0 {
        Seq::empty()
    } else if is_realtime_byte(s.last()) {
        realtime_of(s.drop_last()).push(EventView::Realtime(s.last()))
    } else {
        realtime_of(s.drop_last())
    }
}

/// The running status that a decoder state stands for: only a channel
/// status can run.
pub open spec fn effective_running(running: Option<u8>) -> Option<u8> {
    match running {
        Some(s) => if is_channel_status(s) {
            running
        } else {
            None
        },
        None => None,
    }
}

/// What the decoder does with the bytes from one index on.
pub struct Step {
    /// The events that the step yields, in order.
    pub events: Seq<EventView>,
    /// The index at which the next step starts.
    pub next: int,
    /// The running status after the step.
    pub running: Option<u8>,
    /// The bytes that were skipped as noise.
    pub skipped: Seq<u8>,
}

/// The step that skips the byte at `i` as noise. It clears the running status.
pub open spec fn skip_step(bytes: Seq<u8>, i: int) -> Step {
    Step { events: Seq::empty(), next: i + 1, running: None, skipped: seq![bytes[i]] }
}

/// The step for a channel message whose status is `status`, whose body
/// starts at `from` and whose first byte stands at `i`. With a whole body it
/// yields the realtime messages that stand in the body, then the message;
/// with a broken body it skips the byte at `i`; with an incomplete one there
/// is no step to take.
pub open spec fn message_step(bytes: Seq<u8>, i: int, from: int, status: u8) -> Option<Step> {
    match scan_data(bytes, from, data_len(status)) {
        Scan::Complete { end } => Some(
            Step {
                events: realtime_of(bytes.subrange(from, end)).push(
                    EventView::Voice(
                        ChannelMessage::spec_decode(status, data_of(bytes.subrange(from, end))),
                    ),
                ),
                next: end,
                running: Some(status),
                skipped: Seq::empty(),
            },
        ),
        Scan::Incomplete => None,
        Scan::Broken => Some(skip_step(bytes, i)),
    }
}

/// The step for a System Exclusive run that opens at `i`.
pub open spec fn sysex_step(bytes: Seq<u8>, i: int) -> Option<Step> {
    match scan_sysex(bytes, i + 1) {
        Scan::Complete { end } => Some(
            Step {
                events: realtime_of(bytes.subrange(i + 1, end - 1)).push(
                    EventView::SysEx(data_of(bytes.subrange(i + 1, end - 1))),
                ),
                next: end,
                running: None,
                skipped: Seq::empty(),
            },
        ),
        Scan::Incomplete => None,
        Scan::Broken => Some(skip_step(bytes, i)),
    }
}

/// The step that the decoder takes at index `i` under the running status
/// `running`, or nothing where the buffer ends inside a message.
///
/// - A data byte continues the running status; without one it is noise.
/// - A channel status opens a message of one or two data bytes.
/// - `0xF0` opens a System Exclusive run.
/// - A realtime status is an event by itself and leaves the state alone.
/// - Any other status byte is noise.
pub open spec fn step(bytes: Seq<u8>, i: int, running: Option<u8>) -> Option<Step>
    recommends
        0 <= i < bytes.len(),
{
    let b = bytes[i];
    if is_data_byte(b) {
        match effective_running(running) {
            Some(status) => message_step(bytes, i, i, status),
            None => Some(skip_step(bytes, i)),
        }
    } else if is_channel_status(b) {
        message_step(bytes, i, i + 1, b)
    } else if b == SYSEX_START {
        sysex_step(bytes, i)
    } else if is_realtime_byte(b) {
        Some(
            Step {
                events: seq![EventView::Realtime(b)],
                next: i + 1,
                running: running,
                skipped: Seq::empty(),
            },
        )
    } else {
        Some(skip_step(bytes, i))
    }
}

/// The outcome of decoding a buffer.
pub struct Parsed {
    /// The events decoded, in the order of their last bytes.
    pub events: Seq<EventView>,
    /// The index just behind the last byte consumed.
    pub end: int,
    /// The running status left behind.
    pub running: Option<u8>,
    /// The bytes skipped as noise, in order.
    pub skipped: Seq<u8>,
}

/// Decodes `bytes` from index `i` on: takes step after step until the buffer
/// is used up or ends inside a message.
pub open spec fn parse_from(bytes: Seq<u8>, i: int, running: Option<u8>) -> Parsed
    decreases bytes.len() - i,
    via parse_from_decreases
{
    if i < 0 || i >= bytes.len() {
        Parsed { events: Seq::empty(), end: i, running, skipped: Seq::empty() }
    } else {
        match step(bytes, i, running) {
            None => Parsed { events: Seq::empty(), end: i, running, skipped: Seq::empty() },
            Some(st) => {
                let rest = parse_from(bytes, st.next, st.running);
                Parsed {
                    events: st.events + rest.events,
                    end: rest.end,
                    running: rest.running,
                    skipped: st.skipped + rest.skipped,
                }
            },
        }
    }
}

#[via_fn]
proof fn parse_from_decreases(bytes: Seq<u8>, i: int, running: Option<u8>) {
    if 0 <= i < bytes.len() {
        lemma_step_advances(bytes, i, running);
    }
}

/// Decodes a whole buffer under the running status `running`.
pub open spec fn parse(bytes: Seq<u8>, running: Option<u8>) -> Parsed {
    parse_from(bytes, 0, running)
}

/// A whole channel-message body ends within the buffer, at least `need`
/// bytes on.
pub proof fn lemma_scan_data_end(bytes: Seq<u8>, from: int, need: nat)
    requires
        0 <= from <= bytes.len(),
    ensures
        scan_data(bytes, from, need) matches Scan::Complete { end } ==> from + need <= end
            <= bytes.len(),
    decreases bytes.len() - from,
{
    if need != 0 && from < bytes.len() {
        if is_data_byte(bytes[from]) {
            lemma_scan_data_end(bytes, from + 1, (need - 1) as nat);
        } else if is_realtime_byte(bytes[from]) {
            lemma_scan_data_end(bytes, from + 1, need);
        }
    }
}

/// A whole System Exclusive body ends within the buffer, behind its terminator.
pub proof fn lemma_scan_sysex_end(bytes: Seq<u8>, from: int)
    requires
        0 <= from,
    ensures
        scan_sysex(bytes, from) matches Scan::Complete { end } ==> from < end <= bytes.len()
            && bytes[end - 1] == SYSEX_END,
    decreases bytes.len() - from,
{
    if from < bytes.len() && bytes[from] != SYSEX_END && (is_data_byte(bytes[from])
        || is_realtime_byte(bytes[from])) {
        lemma_scan_sysex_end(bytes, from + 1);
    }
}

/// Every step moves on by at least one byte and stays within the buffer.
pub proof fn lemma_step_advances(bytes: Seq<u8>, i: int, running: Option<u8>)
    requires
        0 <= i < bytes.len(),
    ensures
        step(bytes, i, running) matches Some(st) ==> i < st.next <= bytes.len(),
{
    let b = bytes[i];
    if is_data_byte(b) {
        match effective_running(running) {
            Some(status) => {
                lemma_scan_data_end(bytes, i, data_len(status));
            },
            None => {},
        }
    } else if is_channel_status(b) {
        lemma_scan_data_end(bytes, i + 1, data_len(b));
    } else if b == SYSEX_START {
        lemma_scan_sysex_end(bytes, i + 1);
    }
}

/// Decoding stops at the end of the buffer or before a message that the
/// buffer does not hold to its end, and nowhere else.
pub proof fn lemma_parse_stops(bytes: Seq<u8>, i: int, running: Option<u8>)
    requires
        0 <= i <= bytes.len(),
    ensures
        i <= parse_from(bytes, i, running).end <= bytes.len(),
        parse_from(bytes, i, running).end < bytes.len() ==> step(
            bytes,
            parse_from(bytes, i, running).end,
            parse_from(bytes, i, running).running,
        ) is None,
    decreases bytes.len() - i,
{
    if i < bytes.len() {
        lemma_step_advances(bytes, i, running);
        if let Some(st) = step(bytes, i, running) {
            lemma_parse_stops(bytes, st.next, st.running);
        }
    }
}

/// The data bytes of a concatenation are those of its parts.
pub proof fn lemma_data_of_add(a: Seq<u8>, b: Seq<u8>)
    ensures
        data_of(a + b) == data_of(a) + data_of(b),
    decreases b.len(),
{
    if b.len() == 0 {
        assert(a + b =~= a);
        assert(data_of(a) + data_of(b) =~= data_of(a));
    } else {
        assert((a + b).drop_last() =~= a + b.drop_last());
        lemma_data_of_add(a, b.drop_last());
        assert(data_of(a + b) =~= data_of(a) + data_of(b));
    }
}

/// What `data_of` makes of a single byte.
pub proof fn lemma_data_of_single(b: u8)
    ensures
        data_of(seq![b]) == if is_data_byte(b) {
            seq![b]
        } else {
            Seq::<u8>::empty()
        },
{
    assert(seq![b].drop_last() =~= Seq::<u8>::empty());
    assert(data_of(seq![b].drop_last()) =~= Seq::<u8>::empty());
    assert(Seq::<u8>::empty().push(b) =~= seq![b]);
}

/// `data_of` yields data bytes only.
pub proof fn lemma_data_of_is_data(s: Seq<u8>)
    ensures
        all_data_bytes(data_of(s)),
    decreases s.len(),
{
    if s.len() > 0 {
        lemma_data_of_is_data(s.drop_last());
    }
}

/// The body of a whole channel message holds exactly the data bytes that its
/// status calls for.
pub proof fn lemma_scan_data_body(bytes: Seq<u8>, from: int, need: nat)
    requires
        0 <= from <= bytes.len(),
    ensures
        scan_data(bytes, from, need) matches Scan::Complete { end } ==> data_of(
            bytes.subrange(from, end),
        ).len() == need,
    decreases bytes.len() - from,
{
    lemma_scan_data_end(bytes, from, need);
    if let Scan::Complete { end } = scan_data(bytes, from, need) {
        if need == 0 {
            assert(bytes.subrange(from, end) =~= Seq::<u8>::empty());
        } else {
            let rest_need = if is_data_byte(bytes[from]) {
                (need - 1) as nat
            } else {
                need
            };
            assert(scan_data(bytes, from + 1, rest_need) == scan_data(bytes, from, need));
            lemma_scan_data_end(bytes, from + 1, rest_need);
            lemma_scan_data_body(bytes, from + 1, rest_need);
            assert(bytes.subrange(from, end) =~= seq![bytes[from]] + bytes.subrange(
                from + 1,
                end,
            ));
            lemma_data_of_add(seq![bytes[from]], bytes.subrange(from + 1, end));
            lemma_data_of_single(bytes[from]);
        }
    }
}

/// `realtime_of` yields realtime messages only.
pub proof fn lemma_realtime_of_is_wf(s: Seq<u8>)
    ensures
        all_wf(realtime_of(s)),
    decreases s.len(),
{
    if s.len() > 0 {
        lemma_realtime_of_is_wf(s.drop_last());
    }
}

/// Every event that a step yields is well formed.
pub proof fn lemma_step_yields_wf(bytes: Seq<u8>, i: int, running: Option<u8>)
    requires
        0 <= i < bytes.len(),
    ensures
        step(bytes, i, running) matches Some(st) ==> all_wf(st.events),
{
    let b = bytes[i];
    if is_data_byte(b) {
        match effective_running(running) {
            Some(status) => {
                lemma_message_step_yields_wf(bytes, i, i, status);
            },
            None => {},
        }
    } else if is_channel_status(b) {
        lemma_message_step_yields_wf(bytes, i, i + 1, b);
    } else if b == SYSEX_START {
        lemma_scan_sysex_end(bytes, i + 1);
        if let Scan::Complete { end } = scan_sysex(bytes, i + 1) {
            let body = bytes.subrange(i + 1, end - 1);
            lemma_realtime_of_is_wf(body);
            lemma_data_of_is_data(body);
        }
    }
}

proof fn lemma_message_step_yields_wf(bytes: Seq<u8>, i: int, from: int, status: u8)
    requires
        0 <= i <= from <= bytes.len(),
        is_channel_status(status),
    ensures
        message_step(bytes, i, from, status) matches Some(st) ==> all_wf(st.events),
{
    let need = data_len(status);
    lemma_scan_data_end(bytes, from, need);
    lemma_scan_data_body(bytes, from, need);
    if let Scan::Complete { end } = scan_data(bytes, from, need) {
        let body = bytes.subrange(from, end);
        lemma_realtime_of_is_wf(body);
        lemma_data_of_is_data(body);
        lemma_decoded_is_wf(status, data_of(body));
    }
}

/// The decoder yields well formed events only.
pub proof fn lemma_parse_yields_wf(bytes: Seq<u8>, i: int, running: Option<u8>)
    requires
        0 <= i <= bytes.len(),
    ensures
        all_wf(parse_from(bytes, i, running).events),
    decreases bytes.len() - i,
{
    if i < bytes.len() {
        lemma_step_advances(bytes, i, running);
        lemma_step_yields_wf(bytes, i, running);
        if let Some(st) = step(bytes, i, running) {
            lemma_parse_yields_wf(bytes, st.next, st.running);
        }
    }
}

/// How a scan ended, with the end as a machine index.
enum Scanned {
    Complete(usize),
    Incomplete,
    Broken,
}

impl View for Scanned {
    type V = Scan;

    closed spec fn view(&self) -> Scan {
        match self {
            Scanned::Complete(end) => Scan::Complete { end: *end as int },
            Scanned::Incomplete => Scan::Incomplete,
            Scanned::Broken => Scan::Broken,
        }
    }
}

fn scan_data_exec(bytes: &[u8], from: usize, need: usize) -> (r: Scanned)
    requires
        from <= bytes.len(),
    ensures
        r@ == scan_data(bytes@, from as int, need as nat),
{
    let mut j: usize = from;
    let mut left: usize = need;
    while left > 0
        invariant
            from <= j <= bytes.len(),
            scan_data(bytes@, j as int, left as nat) == scan_data(
                bytes@,
                from as int,
                need as nat,
            ),
        decreases bytes.len() - j,
    {
        if j >= bytes.len() {
            return Scanned::Incomplete;
        }
        let b: u8 = bytes[j];
        if b < 0x80 {
            left -= 1;
        } else if b < 0xF8 || b == 0xFF {
            return Scanned::Broken;
        }
        j += 1;
    }
    Scanned::Complete(j)
}

fn scan_sysex_exec(bytes: &[u8], from: usize) -> (r: Scanned)
    requires
        from <= bytes.len(),
    ensures
        r@ == scan_sysex(bytes@, from as int),
{
    let mut j: usize = from;
    while j < bytes.len()
        invariant
            from <= j <= bytes.len(),
            scan_sysex(bytes@, j as int) == scan_sysex(bytes@, from as int),
        decreases bytes.len() - j,
    {
        let b: u8 = bytes[j];
        if b == SYSEX_END {
            return Scanned::Complete(j + 1);
        }
        if b >= 0x80 && (b < 0xF8 || b == 0xFF) {
            return Scanned::Broken;
        }
        j += 1;
    }
    Scanned::Incomplete
}

/// Appends to `events` the realtime messages among `bytes[from..end]`.
fn collect_realtime(bytes: &[u8], from: usize, end: usize, events: &mut Vec<MidiEvent>)
    requires
        from <= end <= bytes.len(),
    ensures
        event_views(final(events)@) == event_views(old(events)@) + realtime_of(
            bytes@.subrange(from as int, end as int),
        ),
{
    let mut j: usize = from;
    assert(bytes@.subrange(from as int, j as int) =~= Seq::<u8>::empty());
    assert(event_views(events@) =~= event_views(old(events)@) + realtime_of(
        bytes@.subrange(from as int, j as int),
    ));
    while j < end
        invariant
            from <= j <= end <= bytes.len(),
            event_views(events@) == event_views(old(events)@) + realtime_of(
                bytes@.subrange(from as int, j as int),
            ),
        decreases end - j,
    {
        let b: u8 = bytes[j];
        let ghost before = events@;
        assert(bytes@.subrange(from as int, j + 1).drop_last() =~= bytes@.subrange(
            from as int,
            j as int,
        ));
        if b >= 0xF8 && b < 0xFF {
            events.push(MidiEvent::Realtime(b));
            assert(event_views(events@) =~= event_views(before).push(EventView::Realtime(b)));
        }
        j += 1;
        assert(event_views(events@) =~= event_views(old(events)@) + realtime_of(
            bytes@.subrange(from as int, j as int),
        ));
    }
}

/// The data bytes among `bytes[from..end]`.
fn collect_data(bytes: &[u8], from: usize, end: usize) -> (data: Vec<u8>)
    requires
        from <= end <= bytes.len(),
    ensures
        data@ == data_of(bytes@.subrange(from as int, end as int)),
{
    let mut data: Vec<u8> = Vec::new();
    let mut j: usize = from;
    assert(bytes@.subrange(from as int, j as int) =~= Seq::<u8>::empty());
    while j < end
        invariant
            from <= j <= end <= bytes.len(),
            data@ == data_of(bytes@.subrange(from as int, j as int)),
        decreases end - j,
    {
        let b: u8 = bytes[j];
        assert(bytes@.subrange(from as int, j + 1).drop_last() =~= bytes@.subrange(
            from as int,
            j as int,
        ));
        if b < 0x80 {
            data.push(b);
        }
        j += 1;
    }
    data
}

/// Skips the byte at `i`.
fn skip_exec(bytes: &[u8], i: usize, skipped: &mut Vec<u8>) -> (r: Option<(usize, Option<u8>)>)
    requires
        i < bytes.len(),
    ensures
        r == Some(((i + 1) as usize, None::<u8>)),
        final(skipped)@ == old(skipped)@ + skip_step(bytes@, i as int).skipped,
{
    skipped.push(bytes[i]);
    assert(skipped@ =~= old(skipped)@ + seq![bytes@[i as int]]);
    Some((i + 1, None))
}

/// Takes the step for a channel message: see [`message_step`].
fn message_step_exec(
    bytes: &[u8],
    i: usize,
    from: usize,
    status: u8,
    events: &mut Vec<MidiEvent>,
    skipped: &mut Vec<u8>,
) -> (r: Option<(usize, Option<u8>)>)
    requires
        i < bytes.len(),
        i <= from <= bytes.len(),
        is_channel_status(status),
    ensures
        match message_step(bytes@, i as int, from as int, status) {
            None => r is None && final(events)@ == old(events)@ && final(skipped)@ == old(
                skipped,
            )@,
            Some(st) => {
                &&& r == Some((st.next as usize, st.running))
                &&& event_views(final(events)@) == event_views(old(events)@) + st.events
                &&& final(skipped)@ == old(skipped)@ + st.skipped
            },
        },
{
    let need: usize = if 0xC0 <= status && status < 0xE0 {
        1
    } else {
        2
    };
    match scan_data_exec(bytes, from, need) {
        Scanned::Complete(end) => {
            proof {
                lemma_scan_data_end(bytes@, from as int, need as nat);
                lemma_scan_data_body(bytes@, from as int, need as nat);
                lemma_data_of_is_data(bytes@.subrange(from as int, end as int));
            }
            collect_realtime(bytes, from, end, events);
            let data = collect_data(bytes, from, end);
            let d0: u8 = data[0];
            let d1: u8 = if need == 2 {
                data[1]
            } else {
                0
            };
            let message = ChannelMessage::decode(status, d0, d1);
            let ghost before = events@;
            events.push(MidiEvent::Voice(message));
            proof {
                if need == 2 {
                    assert(data@ =~= seq![d0, d1]);
                } else {
                    assert(data@ =~= seq![d0]);
                }
                assert(event_views(events@) =~= event_views(before).push(
                    EventView::Voice(message),
                ));
                assert(skipped@ =~= old(skipped)@ + Seq::<u8>::empty());
            }
            Some((end, Some(status)))
        },
        Scanned::Incomplete => None,
        Scanned::Broken => {
            assert(event_views(events@) =~= event_views(old(events)@) + Seq::<EventView>::empty());
            skip_exec(bytes, i, skipped)
        },
    }
}

/// Takes the step for a System Exclusive run that opens at `i`: see
/// [`sysex_step`].
fn sysex_step_exec(bytes: &[u8], i: usize, events: &mut Vec<MidiEvent>, skipped: &mut Vec<u8>) -> (r:
    Option<(usize, Option<u8>)>)
    requires
        i < bytes.len(),
    ensures
        match sysex_step(bytes@, i as int) {
            None => r is None && final(events)@ == old(events)@ && final(skipped)@ == old(
                skipped,
            )@,
            Some(st) => {
                &&& r == Some((st.next as usize, st.running))
                &&& i < st.next <= bytes.len()
                &&& event_views(final(events)@) == event_views(old(events)@) + st.events
                &&& final(skipped)@ == old(skipped)@ + st.skipped
            },
        },
{
    match scan_sysex_exec(bytes, i + 1) {
        Scanned::Complete(end) => {
            proof {
                lemma_scan_sysex_end(bytes@, i + 1);
            }
            collect_realtime(bytes, i + 1, end - 1, events);
            let body = collect_data(bytes, i + 1, end - 1);
            let ghost before = events@;
            events.push(MidiEvent::SysEx(body));
            proof {
                assert(event_views(events@) =~= event_views(before).push(
                    EventView::SysEx(body@),
                ));
                assert(skipped@ =~= old(skipped)@ + Seq::<u8>::empty());
            }
            Some((end, None))
        },
        Scanned::Incomplete => None,
        Scanned::Broken => {
            assert(event_views(events@) =~= event_views(old(events)@) + Seq::<EventView>::empty());
            skip_exec(bytes, i, skipped)
        },
    }
}

/// Appends one event to `events`.
fn push_event(events: &mut Vec<MidiEvent>, event: MidiEvent)
    ensures
        event_views(final(events)@) == event_views(old(events)@) + seq![event@],
{
    events.push(event);
    assert(event_views(events@) =~= event_views(old(events)@) + seq![event@]);
}

/// The running status that `running` stands for: see [`effective_running`].
fn running_status(running: Option<u8>) -> (r: Option<u8>)
    ensures
        r == effective_running(running),
{
    match running {
        Some(status) => {
            if 0x80 <= status && status < 0xF0 {
                running
            } else {
                None
            }
        },
        None => None,
    }
}

/// Takes the step at `i`: see [`step`].
fn step_exec(
    bytes: &[u8],
    i: usize,
    running: Option<u8>,
    events: &mut Vec<MidiEvent>,
    skipped: &mut Vec<u8>,
) -> (r: Option<(usize, Option<u8>)>)
    requires
        i < bytes.len(),
    ensures
        match step(bytes@, i as int, running) {
            None => r is None && final(events)@ == old(events)@ && final(skipped)@ == old(
                skipped,
            )@,
            Some(st) => {
                &&& r == Some((st.next as usize, st.running))
                &&& i < st.next <= bytes.len()
                &&& event_views(final(events)@) == event_views(old(events)@) + st.events
                &&& final(skipped)@ == old(skipped)@ + st.skipped
            },
        },
{
    proof {
        lemma_step_advances(bytes@, i as int, running);
        assert(event_views(events@) =~= event_views(events@) + Seq::<EventView>::empty());
        assert(skipped@ =~= skipped@ + Seq::<u8>::empty());
    }
    let b: u8 = bytes[i];
    if b < 0x80 {
        match running_status(running) {
            Some(status) => message_step_exec(bytes, i, i, status, events, skipped),
            None => skip_exec(bytes, i, skipped),
        }
    } else if b < 0xF0 {
        message_step_exec(bytes, i, i + 1, b, events, skipped)
    } else if b == SYSEX_START {
        sysex_step_exec(bytes, i, events, skipped)
    } else if b >= 0xF8 && b < 0xFF {
        push_event(events, MidiEvent::Realtime(b));
        Some((i + 1, running))
    } else {
        skip_exec(bytes, i, skipped)
    }
}

/// What a call of [`decode`] found in a buffer.
#[derive(Debug, Clone, PartialEq, Eq)]
pub struct Decoded {
    /// The events decoded, in order.
    pub events: Vec<MidiEvent>,
    /// How many bytes were used up. The bytes behind them are the start of a
    /// message that the buffer does not hold to its end.
    pub consumed: usize,
    /// The running status to decode the next buffer under.
    pub running: Option<u8>,
    /// The bytes that were skipped as noise, in order: one warning is due for each.
    pub skipped: Vec<u8>,
}

impl View for Decoded {
    type V = Parsed;

    open spec fn view(&self) -> Parsed {
        Parsed {
            events: event_views(self.events@),
            end: self.consumed as int,
            running: self.running,
            skipped: self.skipped@,
        }
    }
}

/// Decodes the events that `bytes` holds, under the running status `running`
/// that the bytes before them left behind.
///
/// Decoding stops before a message that the buffer does not hold to its end:
/// `consumed` then points at its first byte. Noise never stops it.
pub fn decode(bytes: &[u8], running: Option<u8>) -> (out: Decoded)
    ensures
        out@ == parse(bytes@, running),
        out.consumed <= bytes.len(),
        all_wf(out@.events),
{
    proof {
        lemma_parse_yields_wf(bytes@, 0, running);
    }
    let mut events: Vec<MidiEvent> = Vec::new();
    let mut skipped: Vec<u8> = Vec::new();
    let mut i: usize = 0;
    let mut state: Option<u8> = running;
    let ghost goal = parse(bytes@, running);
    assert(event_views(events@) + parse_from(bytes@, 0, state).events =~= goal.events);
    assert(skipped@ + parse_from(bytes@, 0, state).skipped =~= goal.skipped);
    while i < bytes.len()
        invariant
            i <= bytes.len(),
            goal == parse(bytes@, running),
            all_wf(goal.events),
            goal.events == event_views(events@) + parse_from(bytes@, i as int, state).events,
            goal.skipped == skipped@ + parse_from(bytes@, i as int, state).skipped,
            goal.end == parse_from(bytes@, i as int, state).end,
            goal.running == parse_from(bytes@, i as int, state).running,
        decreases bytes.len() - i,
    {
        let ghost events_before = events@;
        let ghost skipped_before = skipped@;
        match step_exec(bytes, i, state, &mut events, &mut skipped) {
            None => {
                proof {
                    assert(goal.events =~= event_views(events@));
                    assert(goal.skipped =~= skipped@);
                }
                return Decoded { events, consumed: i, running: state, skipped };
            },
            Some((next, next_state)) => {
                proof {
                    let st = step(bytes@, i as int, state).unwrap();
                    let rest = parse_from(bytes@, st.next, st.running);
                    assert(event_views(events@) + rest.events =~= event_views(events_before) + (
                    st.events + rest.events));
                    assert(skipped@ + rest.skipped =~= skipped_before + (st.skipped
                        + rest.skipped));
                }
                i = next;
                state = next_state;
            },
        }
    }
    proof {
        assert(goal.events =~= event_views(events@));
        assert(goal.skipped =~= skipped@);
    }
    Decoded { events, consumed: i, running: state, skipped }
}

/// The state that decoding carries from one buffer to the next: the status
/// that is running, if any.
#[derive(Debug, Clone, Copy, PartialEq, Eq, Structural)]
pub struct Decoder {
    pub running: Option<u8>,
}

impl Decoder {
    /// A decoder at the start of a stream: no status is running.
    pub fn new() -> (decoder: Decoder)
        ensures
            decoder.running is None,
    {
        Decoder { running: None }
    }

    /// Decodes the events that `buf` holds and takes the bytes used up off
    /// its front. What stays in the buffer is the start of a message whose
    /// end has not arrived yet; the next bytes read belong behind it.
    pub fn feed(&mut self, buf: &mut bytes::BytesMut) -> (out: Decoded)
        ensures
            out@ == parse(buffered(*old(buf)), old(self).running),
            all_wf(out@.events),
            final(self).running == out.running,
            out.consumed <= buffered(*old(buf)).len(),
            buffered(*final(buf)) == buffered(*old(buf)).skip(out.consumed as int),
    {
        let out = decode(buffer_chunk(buf), self.running);
        buffer_advance(buf, out.consumed);
        self.running = out.running;
        out
    }
}

} // verus!
