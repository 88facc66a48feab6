//! Decoding a stream in pieces: a buffer may end anywhere, and decoding the
//! pieces one after the other comes to the same as decoding the whole.

use vstd::prelude::*;
use crate::midi::codec::{
    effective_running, lemma_scan_data_end, lemma_scan_sysex_end, lemma_step_advances, parse,
    parse_from, scan_data, scan_sysex, step, Scan,
};
use crate::midi::event::{
    data_len, is_channel_status, is_data_byte, is_realtime_byte, SYSEX_END, SYSEX_START,
};

verus! {

/// A scan that did not run into the end of the buffer ends the same way
/// with more bytes behind the buffer.
proof fn lemma_scan_data_extends(a: Seq<u8>, b: Seq<u8>, from: int, need: nat)
    requires
        0 <= from <= a.len(),
        !(scan_data(a, from, need) is Incomplete),
    ensures
        scan_data(a + b, from, need) == scan_data(a, from, need),
    decreases a.len() - from,
{
    if need != 0 && from < a.len() {
        assert((a + b)[from] == a[from]);
        if is_data_byte(a[from]) {
            lemma_scan_data_extends(a, b, from + 1, (need - 1) as nat);
        } else if is_realtime_byte(a[from]) {
            lemma_scan_data_extends(a, b, from + 1, need);
        }
    }
}

/// The same for the scan of a System Exclusive body.
proof fn lemma_scan_sysex_extends(a: Seq<u8>, b: Seq<u8>, from: int)
    requires
        0 <= from <= a.len(),
        !(scan_sysex(a, from) is Incomplete),
    ensures
        scan_sysex(a + b, from) == scan_sysex(a, from),
    decreases a.len() - from,
{
    if from < a.len() {
        assert((a + b)[from] == a[from]);
        if a[from] != SYSEX_END && (is_data_byte(a[from]) || is_realtime_byte(a[from])) {
            lemma_scan_sysex_extends(a, b, from + 1);
        }
    }
}

/// A step that the decoder takes within a buffer is the step that it takes
/// there with more bytes behind the buffer.
proof fn lemma_step_extends(a: Seq<u8>, b: Seq<u8>, i: int, running: Option<u8>)
    requires
        0 <= i < a.len(),
        step(a, i, running) is Some,
    ensures
        step(a + b, i, running) == step(a, i, running),
{
    let x = a + b;
    assert(x[i] == a[i]);
    lemma_step_advances(a, i, running);
    let st = step(a, i, running).unwrap();
    let byte = a[i];
    if is_data_byte(byte) {
        match effective_running(running) {
            Some(status) => {
                lemma_scan_data_extends(a, b, i, data_len(status));
                assert(x.subrange(i, st.next) =~= a.subrange(i, st.next));
            },
            None => {},
        }
    } else if is_channel_status(byte) {
        lemma_scan_data_extends(a, b, i + 1, data_len(byte));
        if st.next > i + 1 {
            assert(x.subrange(i + 1, st.next) =~= a.subrange(i + 1, st.next));
        }
    } else if byte == SYSEX_START {
        lemma_scan_sysex_extends(a, b, i + 1);
        lemma_scan_sysex_end(a, i + 1);
        if scan_sysex(a, i + 1) is Complete {
            assert(x.subrange(i + 1, st.next - 1) =~= a.subrange(i + 1, st.next - 1));
        }
    }
}

/// Decoding a longer buffer does what decoding the shorter one did, and
/// goes on from where that stopped.
proof fn lemma_parse_extends(a: Seq<u8>, b: Seq<u8>, i: int, running: Option<u8>)
    requires
        0 <= i <= a.len(),
    ensures
        ({
            let first = parse_from(a, i, running);
            let whole = parse_from(a + b, i, running);
            let rest = parse_from(a + b, first.end, first.running);
            &&& i <= first.end <= a.len()
            &&& whole.events == first.events + rest.events
            &&& whole.skipped == first.skipped + rest.skipped
            &&& whole.end == rest.end
            &&& whole.running == rest.running
        }),
    decreases a.len() - i,
{
    let first = parse_from(a, i, running);
    let whole = parse_from(a + b, i, running);
    let rest = parse_from(a + b, first.end, first.running);
    if i < a.len() && step(a, i, running) is Some {
        let st = step(a, i, running).unwrap();
        lemma_step_advances(a, i, running);
        lemma_step_extends(a, b, i, running);
        lemma_parse_extends(a, b, st.next, st.running);
        let inner = parse_from(a, st.next, st.running);
        let inner_whole = parse_from(a + b, st.next, st.running);
        assert(first.events == st.events + inner.events);
        assert(whole.events == st.events + inner_whole.events);
        assert(whole.events =~= first.events + rest.events);
        assert(whole.skipped =~= first.skipped + rest.skipped);
    } else {
        assert(whole.events =~= first.events + rest.events);
        assert(whole.skipped =~= first.skipped + rest.skipped);
    }
}

/// How a scan ends does not depend on what stands before its start.
proof fn lemma_scan_data_shifts(x: Seq<u8>, k: int, from: int, need: nat)
    requires
        0 <= k <= from <= x.len(),
    ensures
        match scan_data(x, from, need) {
            Scan::Complete { end } => scan_data(x.skip(k), from - k, need) == (Scan::Complete {
                end: end - k,
            }),
            other => scan_data(x.skip(k), from - k, need) == other,
        },
    decreases x.len() - from,
{
    if need != 0 && from < x.len() {
        assert(x.skip(k)[from - k] == x[from]);
        if is_data_byte(x[from]) {
            lemma_scan_data_shifts(x, k, from + 1, (need - 1) as nat);
        } else if is_realtime_byte(x[from]) {
            lemma_scan_data_shifts(x, k, from + 1, need);
        }
    }
}

/// The same for the scan of a System Exclusive body.
proof fn lemma_scan_sysex_shifts(x: Seq<u8>, k: int, from: int)
    requires
        0 <= k <= from <= x.len(),
    ensures
        match scan_sysex(x, from) {
            Scan::Complete { end } => scan_sysex(x.skip(k), from - k) == (Scan::Complete {
                end: end - k,
            }),
            other => scan_sysex(x.skip(k), from - k) == other,
        },
    decreases x.len() - from,
{
    if from < x.len() {
        assert(x.skip(k)[from - k] == x[from]);
        if x[from] != SYSEX_END && (is_data_byte(x[from]) || is_realtime_byte(x[from])) {
            lemma_scan_sysex_shifts(x, k, from + 1);
        }
    }
}

/// The step that the decoder takes at an index does not depend on what
/// stands before the index.
proof fn lemma_step_shifts(x: Seq<u8>, k: int, i: int, running: Option<u8>)
    requires
        0 <= k <= i < x.len(),
    ensures
        match step(x, i, running) {
            None => step(x.skip(k), i - k, running) is None,
            Some(st) => {
                &&& step(x.skip(k), i - k, running) matches Some(shifted)
                &&& shifted.events == st.events
                &&& shifted.next == st.next - k
                &&& shifted.running == st.running
                &&& shifted.skipped == st.skipped
            },
        },
{
    let y = x.skip(k);
    assert(y[i - k] == x[i]);
    lemma_step_advances(x, i, running);
    let byte = x[i];
    if is_data_byte(byte) {
        match effective_running(running) {
            Some(status) => {
                let need = data_len(status);
                lemma_scan_data_shifts(x, k, i, need);
                lemma_scan_data_end(x, i, need);
                if let Scan::Complete { end } = scan_data(x, i, need) {
                    assert(y.subrange(i - k, end - k) =~= x.subrange(i, end));
                }
            },
            None => {},
        }
    } else if is_channel_status(byte) {
        let need = data_len(byte);
        lemma_scan_data_shifts(x, k, i + 1, need);
        lemma_scan_data_end(x, i + 1, need);
        if let Scan::Complete { end } = scan_data(x, i + 1, need) {
            assert(y.subrange(i + 1 - k, end - k) =~= x.subrange(i + 1, end));
        }
    } else if byte == SYSEX_START {
        lemma_scan_sysex_shifts(x, k, i + 1);
        lemma_scan_sysex_end(x, i + 1);
        if let Scan::Complete { end } = scan_sysex(x, i + 1) {
            assert(y.subrange(i + 1 - k, end - 1 - k) =~= x.subrange(i + 1, end - 1));
        }
    }
}

/// Decoding from an index on comes to the same as decoding the bytes from
/// that index on by themselves.
proof fn lemma_parse_shifts(x: Seq<u8>, k: int, i: int, running: Option<u8>)
    requires
        0 <= k <= i <= x.len(),
    ensures
        ({
            let here = parse_from(x, i, running);
            let alone = parse_from(x.skip(k), i - k, running);
            &&& alone.events == here.events
            &&& alone.skipped == here.skipped
            &&& alone.end == here.end - k
            &&& alone.running == here.running
        }),
    decreases x.len() - i,
{
    if i < x.len() {
        lemma_step_shifts(x, k, i, running);
        lemma_step_advances(x, i, running);
        if let Some(st) = step(x, i, running) {
            lemma_parse_shifts(x, k, st.next, st.running);
        }
    }
}

/// Decoding in pieces: decode a buffer, keep what was not used up, put
/// more bytes behind it and decode again under the running status that
/// the first decoding left. The events and the skipped bytes of the two
/// decodings, one behind the other, are those of decoding all the bytes at once.
pub proof fn lemma_parse_in_pieces(a: Seq<u8>, b: Seq<u8>, running: Option<u8>)
    ensures
        ({
            let first = parse(a, running);
            let second = parse(a.skip(first.end) + b, first.running);
            let whole = parse(a + b, running);
            &&& 0 <= first.end <= a.len()
            &&& whole.events == first.events + second.events
            &&& whole.skipped == first.skipped + second.skipped
            &&& whole.end == first.end + second.end
            &&& whole.running == second.running
        }),
{
    let first = parse(a, running);
    lemma_parse_extends(a, b, 0, running);
    lemma_parse_shifts(a + b, first.end, first.end, first.running);
    assert((a + b).skip(first.end) =~= a.skip(first.end) + b);
}

} // verus!
