use bytes::BytesMut;
use gobetween::midi::codec::{decode, Decoder};
use gobetween::midi::event::{ChannelMessage, EncodeError, MidiEvent};

fn note_on(channel: u8, key: u8, velocity: u8) -> MidiEvent {
    MidiEvent::Voice(ChannelMessage::NoteOn { channel, key, velocity })
}

fn every_kind() -> Vec<(MidiEvent, Vec<u8>)> {
    vec![
        (
            MidiEvent::Voice(ChannelMessage::NoteOff { channel: 1, key: 60, velocity: 0 }),
            vec![0x81, 0x3C, 0x00],
        ),
        (note_on(0, 60, 64), vec![0x90, 0x3C, 0x40]),
        (
            MidiEvent::Voice(ChannelMessage::PolyAftertouch { channel: 15, key: 127, pressure: 1 }),
            vec![0xAF, 0x7F, 0x01],
        ),
        (
            MidiEvent::Voice(ChannelMessage::ControlChange { channel: 0, controller: 7, value: 100 }),
            vec![0xB0, 0x07, 0x64],
        ),
        (
            MidiEvent::Voice(ChannelMessage::ProgramChange { channel: 9, program: 5 }),
            vec![0xC9, 0x05],
        ),
        (
            MidiEvent::Voice(ChannelMessage::ChannelAftertouch { channel: 2, pressure: 33 }),
            vec![0xD2, 0x21],
        ),
        (
            MidiEvent::Voice(ChannelMessage::PitchBend { channel: 3, bend: 0x2000 }),
            vec![0xE3, 0x00, 0x40],
        ),
        (
            MidiEvent::Voice(ChannelMessage::PitchBend { channel: 0, bend: 0x3FFF }),
            vec![0xE0, 0x7F, 0x7F],
        ),
        (MidiEvent::SysEx(vec![0x7E, 0x00, 0x09, 0x01]), vec![0xF0, 0x7E, 0x00, 0x09, 0x01, 0xF7]),
        (MidiEvent::SysEx(vec![]), vec![0xF0, 0xF7]),
        (MidiEvent::Realtime(0xF8), vec![0xF8]),
        (MidiEvent::Realtime(0xFE), vec![0xFE]),
    ]
}

#[test]
fn each_kind_has_its_canonical_bytes() {
    for (event, bytes) in every_kind() {
        assert_eq!(event.to_bytes(), Some(bytes.clone()));
        let mut out = vec![0x55];
        assert_eq!(event.write(&mut out), Ok(()));
        assert_eq!(out[0], 0x55);
        assert_eq!(out[1..].to_vec(), bytes);
    }
}

#[test]
fn decoding_the_encoding_gives_the_event_back() {
    for (event, bytes) in every_kind() {
        for running in [None, Some(0x90), Some(0xB3)] {
            let out = decode(&bytes, running);
            assert_eq!(out.events, vec![event.clone()]);
            assert_eq!(out.consumed, bytes.len());
            assert!(out.skipped.is_empty());
        }
    }
}

#[test]
fn decoding_encoded_events_one_behind_the_other() {
    let mut bytes = Vec::new();
    let mut events = Vec::new();
    for (event, _) in every_kind() {
        assert_eq!(event.write(&mut bytes), Ok(()));
        events.push(event);
    }
    let out = decode(&bytes, None);
    assert_eq!(out.events, events);
    assert_eq!(out.consumed, bytes.len());
    assert!(out.skipped.is_empty());
}

#[test]
fn out_of_range_fields_are_refused_before_any_byte() {
    let bad = vec![
        note_on(16, 60, 64),
        note_on(0, 128, 64),
        note_on(0, 60, 128),
        MidiEvent::Voice(ChannelMessage::PitchBend { channel: 0, bend: 0x4000 }),
        MidiEvent::Voice(ChannelMessage::ProgramChange { channel: 0, program: 0x80 }),
        MidiEvent::SysEx(vec![0x01, 0x80]),
        MidiEvent::SysEx(vec![0xF7]),
        MidiEvent::Realtime(0xF7),
        MidiEvent::Realtime(0xFF),
        MidiEvent::Realtime(0x10),
    ];
    for event in bad {
        assert!(!event.is_valid());
        let mut out = vec![1, 2, 3];
        assert_eq!(event.write(&mut out), Err(EncodeError::OutOfRange));
        assert_eq!(out, vec![1, 2, 3]);
        assert_eq!(event.to_bytes(), None);
    }
}

#[test]
fn decodes_a_note_on() {
    let out = decode(&[0x90, 0x3C, 0x40], None);
    assert_eq!(out.events, vec![note_on(0, 60, 64)]);
    assert_eq!(out.consumed, 3);
    assert!(out.skipped.is_empty());
    assert_eq!(out.running, Some(0x90));
}

#[test]
fn running_status_carries_over_data_bytes() {
    let out = decode(&[0x90, 0x3C, 0x40, 0x3E, 0x41, 0x40, 0x00], None);
    assert_eq!(out.events, vec![note_on(0, 60, 64), note_on(0, 62, 65), note_on(0, 64, 0)]);
    assert_eq!(out.consumed, 7);
    assert!(out.skipped.is_empty());
    assert_eq!(out.running, Some(0x90));
}

#[test]
fn running_status_of_a_one_byte_kind() {
    let out = decode(&[0xC2, 0x01, 0x02, 0x03], None);
    assert_eq!(
        out.events,
        vec![
            MidiEvent::Voice(ChannelMessage::ProgramChange { channel: 2, program: 1 }),
            MidiEvent::Voice(ChannelMessage::ProgramChange { channel: 2, program: 2 }),
            MidiEvent::Voice(ChannelMessage::ProgramChange { channel: 2, program: 3 }),
        ]
    );
    assert_eq!(out.consumed, 4);
}

#[test]
fn running_status_comes_in_from_the_buffer_before() {
    let out = decode(&[0x3C, 0x40], Some(0x91));
    assert_eq!(out.events, vec![note_on(1, 60, 64)]);
    assert_eq!(out.consumed, 2);
    assert_eq!(out.running, Some(0x91));
}

#[test]
fn a_running_status_that_is_no_channel_status_does_not_run() {
    let out = decode(&[0x3C, 0x40], Some(0xF0));
    assert!(out.events.is_empty());
    assert_eq!(out.skipped, vec![0x3C, 0x40]);
    assert_eq!(out.consumed, 2);
    assert_eq!(out.running, None);
}

#[test]
fn sysex_with_realtime_bytes_in_it() {
    let out = decode(&[0xF0, 0x01, 0xF8, 0x02, 0xFA, 0xFE, 0x03, 0xF7], Some(0x90));
    assert_eq!(
        out.events,
        vec![
            MidiEvent::Realtime(0xF8),
            MidiEvent::Realtime(0xFA),
            MidiEvent::Realtime(0xFE),
            MidiEvent::SysEx(vec![0x01, 0x02, 0x03]),
        ]
    );
    assert_eq!(out.consumed, 8);
    assert!(out.skipped.is_empty());
    assert_eq!(out.running, None);
}

#[test]
fn realtime_byte_inside_a_channel_message() {
    let out = decode(&[0x90, 0xF8, 0x3C, 0xFB, 0x40, 0xF8], None);
    assert_eq!(
        out.events,
        vec![
            MidiEvent::Realtime(0xF8),
            MidiEvent::Realtime(0xFB),
            note_on(0, 60, 64),
            MidiEvent::Realtime(0xF8),
        ]
    );
    assert_eq!(out.consumed, 6);
    assert_eq!(out.running, Some(0x90));
}

#[test]
fn realtime_byte_leaves_the_running_status_alone() {
    let out = decode(&[0xF8, 0x3C, 0x40], Some(0x90));
    assert_eq!(out.events, vec![MidiEvent::Realtime(0xF8), note_on(0, 60, 64)]);
    assert_eq!(out.running, Some(0x90));
}

#[test]
fn stops_before_an_incomplete_message() {
    let out = decode(&[0x90, 0x3C, 0x40, 0x91, 0x3C], None);
    assert_eq!(out.events, vec![note_on(0, 60, 64)]);
    assert_eq!(out.consumed, 3);
    assert_eq!(out.running, Some(0x90));
    assert!(out.skipped.is_empty());

    let out = decode(&[0x90], None);
    assert!(out.events.is_empty());
    assert_eq!(out.consumed, 0);
    assert_eq!(out.running, None);

    let out = decode(&[0x3C], Some(0x90));
    assert!(out.events.is_empty());
    assert_eq!(out.consumed, 0);
    assert_eq!(out.running, Some(0x90));
}

#[test]
fn stops_before_an_open_sysex() {
    let out = decode(&[0xB0, 0x07, 0x64, 0xF0, 0x01, 0xF8, 0x02], None);
    assert_eq!(
        out.events,
        vec![MidiEvent::Voice(ChannelMessage::ControlChange { channel: 0, controller: 7, value: 100 })]
    );
    assert_eq!(out.consumed, 3);
    assert_eq!(out.running, Some(0xB0));
}

#[test]
fn empty_buffer_decodes_to_nothing() {
    let out = decode(&[], Some(0x90));
    assert!(out.events.is_empty());
    assert_eq!(out.consumed, 0);
    assert_eq!(out.running, Some(0x90));
    assert!(out.skipped.is_empty());
}

#[test]
fn resyncs_after_a_corrupt_byte() {
    let out = decode(&[0xFF, 0x90, 0x3C, 0x40], None);
    assert_eq!(out.events, vec![note_on(0, 60, 64)]);
    assert_eq!(out.skipped, vec![0xFF]);
    assert_eq!(out.consumed, 4);
}

#[test]
fn noise_before_a_message_is_skipped_byte_by_byte() {
    let out = decode(&[0x01, 0x7F, 0xF7, 0xF1, 0xF6, 0xFF, 0x00, 0xB1, 0x07, 0x64, 0xF8], None);
    assert_eq!(
        out.events,
        vec![
            MidiEvent::Voice(ChannelMessage::ControlChange { channel: 1, controller: 7, value: 100 }),
            MidiEvent::Realtime(0xF8),
        ]
    );
    assert_eq!(out.skipped, vec![0x01, 0x7F, 0xF7, 0xF1, 0xF6, 0xFF, 0x00]);
    assert_eq!(out.consumed, 11);
}

#[test]
fn a_status_in_the_noise_swallows_what_follows() {
    let out = decode(&[0x90, 0x91, 0x3C, 0x40], None);
    assert_eq!(out.events, vec![note_on(1, 60, 64)]);
    assert_eq!(out.skipped, vec![0x90]);
}

#[test]
fn a_message_cut_short_by_a_status_is_skipped() {
    let out = decode(&[0x90, 0x3C, 0xB0, 0x07, 0x64], None);
    assert_eq!(
        out.events,
        vec![MidiEvent::Voice(ChannelMessage::ControlChange { channel: 0, controller: 7, value: 100 })]
    );
    assert_eq!(out.skipped, vec![0x90, 0x3C]);
    assert_eq!(out.consumed, 5);
    assert_eq!(out.running, Some(0xB0));
}

#[test]
fn a_sysex_cut_short_by_a_status_is_skipped() {
    let out = decode(&[0xF0, 0x01, 0x90, 0x3C, 0x40], None);
    assert_eq!(out.events, vec![note_on(0, 60, 64)]);
    assert_eq!(out.skipped, vec![0xF0, 0x01]);
}

#[test]
fn noise_clears_the_running_status() {
    let out = decode(&[0xF1, 0x3C, 0x40], Some(0x90));
    assert!(out.events.is_empty());
    assert_eq!(out.skipped, vec![0xF1, 0x3C, 0x40]);
    assert_eq!(out.running, None);
}

#[test]
fn decoder_feeds_from_a_growing_buffer() {
    let mut decoder = Decoder::new();
    assert_eq!(decoder.running, None);
    let mut buf = BytesMut::new();

    buf.extend_from_slice(&[0x90, 0x3C]);
    let out = decoder.feed(&mut buf);
    assert!(out.events.is_empty());
    assert_eq!(out.consumed, 0);
    assert_eq!(&buf[..], &[0x90, 0x3C]);

    buf.extend_from_slice(&[0x40, 0x3E]);
    let out = decoder.feed(&mut buf);
    assert_eq!(out.events, vec![note_on(0, 60, 64)]);
    assert_eq!(out.consumed, 3);
    assert_eq!(&buf[..], &[0x3E]);
    assert_eq!(decoder.running, Some(0x90));

    buf.extend_from_slice(&[0x41, 0xF0, 0x01]);
    let out = decoder.feed(&mut buf);
    assert_eq!(out.events, vec![note_on(0, 62, 65)]);
    assert_eq!(&buf[..], &[0xF0, 0x01]);

    buf.extend_from_slice(&[0x02, 0xF7]);
    let out = decoder.feed(&mut buf);
    assert_eq!(out.events, vec![MidiEvent::SysEx(vec![0x01, 0x02])]);
    assert!(buf.is_empty());
    assert_eq!(decoder.running, None);
}

#[test]
fn decode_does_not_hand_its_input_back() {
    let mut buf = BytesMut::from(&[0x90u8, 0x3C, 0x40, 0x90][..]);
    let mut decoder = Decoder::new();
    let out = decoder.feed(&mut buf);
    assert_eq!(out.consumed, 3);
    assert_eq!(buf.len(), 1);
    assert_eq!(buf[0], 0x90);
}

#[test]
fn decoding_in_pieces_comes_to_the_same() {
    let stream: Vec<u8> = vec![
        0x01, 0x90, 0x3C, 0x40, 0x3E, 0xF8, 0x41, 0xF0, 0x01, 0xFA, 0x02, 0xF7, 0xC1, 0x05, 0x06,
        0xFF, 0xE2, 0x00, 0x40, 0x90, 0xB0, 0x07, 0x64, 0xF3, 0x11, 0xD0, 0x22,
    ];
    let whole = decode(&stream, None);
    assert_eq!(whole.consumed, stream.len());
    for cut in 0..=stream.len() {
        let first = decode(&stream[..cut], None);
        let mut rest = stream[first.consumed..cut].to_vec();
        rest.extend_from_slice(&stream[cut..]);
        let second = decode(&rest, first.running);
        let mut events = first.events.clone();
        events.extend(second.events.clone());
        let mut skipped = first.skipped.clone();
        skipped.extend(second.skipped.clone());
        assert_eq!(events, whole.events);
        assert_eq!(skipped, whole.skipped);
        assert_eq!(first.consumed + second.consumed, whole.consumed);
        assert_eq!(second.running, whole.running);
    }
}

#[test]
fn decoding_byte_by_byte_through_the_decoder() {
    let stream: Vec<u8> = vec![
        0x90, 0x3C, 0x40, 0x3E, 0xF8, 0x41, 0xF0, 0x01, 0xFA, 0x02, 0xF7, 0xC1, 0x05, 0x06,
    ];
    let whole = decode(&stream, None);
    let mut decoder = Decoder::new();
    let mut buf = BytesMut::new();
    let mut events = Vec::new();
    for byte in &stream {
        buf.extend_from_slice(&[*byte]);
        events.extend(decoder.feed(&mut buf).events);
    }
    assert_eq!(events, whole.events);
    assert!(buf.is_empty());
    assert_eq!(decoder.running, whole.running);
}

#[test]
fn a_status_and_its_data_make_a_message() {
    assert_eq!(
        ChannelMessage::decode(0x93, 0x3C, 0x40),
        ChannelMessage::NoteOn { channel: 3, key: 60, velocity: 64 }
    );
    assert_eq!(
        ChannelMessage::decode(0x80, 1, 2),
        ChannelMessage::NoteOff { channel: 0, key: 1, velocity: 2 }
    );
    assert_eq!(
        ChannelMessage::decode(0xAF, 1, 2),
        ChannelMessage::PolyAftertouch { channel: 15, key: 1, pressure: 2 }
    );
    assert_eq!(
        ChannelMessage::decode(0xB1, 7, 100),
        ChannelMessage::ControlChange { channel: 1, controller: 7, value: 100 }
    );
    assert_eq!(
        ChannelMessage::decode(0xC2, 5, 99),
        ChannelMessage::ProgramChange { channel: 2, program: 5 }
    );
    assert_eq!(
        ChannelMessage::decode(0xD2, 5, 99),
        ChannelMessage::ChannelAftertouch { channel: 2, pressure: 5 }
    );
    assert_eq!(
        ChannelMessage::decode(0xE0, 0x7F, 0x01),
        ChannelMessage::PitchBend { channel: 0, bend: 255 }
    );
}
