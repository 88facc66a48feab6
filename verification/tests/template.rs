use gobetween::message::{
    FieldMap, FieldMatch, Match, Number, NumberMatch, Position, Range, Template, Transformer,
};
use gobetween::midi::codec::decode;
use gobetween::midi::event::{ChannelMessage, MidiEvent};
use gobetween::midi::message_template::MessageTemplate;

fn any() -> Vec<Number> {
    Number::default_vec()
}

fn note_on_any() -> MessageTemplate {
    MessageTemplate::NoteOn { channel: any(), note: any(), velocity: any() }
}

fn note_on(channel: u8, key: u8, velocity: u8) -> MidiEvent {
    MidiEvent::Voice(ChannelMessage::NoteOn { channel, key, velocity })
}

fn entry(field: &str, index: usize, value: NumberMatch) -> FieldMatch {
    FieldMatch { field: field.to_string(), index, value }
}

fn rename(pairs: &[(&str, &str)]) -> FieldMap {
    let mut map = FieldMap::new();
    for (from, to) in pairs {
        map.insert(from.to_string(), to.to_string());
    }
    map
}

fn transformer(
    input: MessageTemplate,
    output: MessageTemplate,
    field_map: FieldMap,
) -> Transformer<MessageTemplate, MessageTemplate> {
    Transformer { input, output, field_map }
}

#[test]
fn passthrough() {
    let transformer = transformer(note_on_any(), note_on_any(), FieldMap::new());
    let decoded = decode(&[0x90, 0x3C, 0x40], None);
    let mut emitted = Vec::new();
    for event in decoded.events {
        if let Some(out) = transformer.transform(event) {
            assert_eq!(out.write(&mut emitted), Ok(()));
        }
    }
    assert_eq!(emitted, vec![0x90, 0x3C, 0x40]);
}

#[test]
fn velocity_scaling_through_templates() {
    let input = MessageTemplate::NoteOn {
        channel: any(),
        note: any(),
        velocity: vec![Number::Range(Range(0, 127))],
    };
    let output = MessageTemplate::PitchBend {
        channel: any(),
        bend: vec![Number::Range(Range(0, 1023))],
    };
    let transformer = transformer(input, output, rename(&[("velocity", "bend")]));
    assert_eq!(
        transformer.transform(note_on(0, 60, 64)),
        Some(MidiEvent::Voice(ChannelMessage::PitchBend { channel: 0, bend: 516 }))
    );
    assert_eq!(
        transformer.transform(note_on(0, 60, 127)),
        Some(MidiEvent::Voice(ChannelMessage::PitchBend { channel: 0, bend: 1023 }))
    );
}

#[test]
fn a_number_too_wide_for_its_field_generates_nothing() {
    let input = MessageTemplate::NoteOn {
        channel: any(),
        note: any(),
        velocity: vec![Number::Range(Range(0, 127))],
    };
    let output = MessageTemplate::NoteOn {
        channel: any(),
        note: any(),
        velocity: vec![Number::Range(Range(0, 1023))],
    };
    let transformer = transformer(input, output, FieldMap::new());
    assert_eq!(transformer.transform(note_on(0, 60, 64)), None);
    assert_eq!(transformer.transform(note_on(0, 60, 15)), Some(note_on(0, 60, 121)));
    assert_eq!(transformer.transform(note_on(0, 60, 16)), None);
}

#[test]
fn field_rename() {
    let output = MessageTemplate::ControlChange { channel: any(), controller: any(), value: any() };
    let transformer =
        transformer(note_on_any(), output, rename(&[("note", "controller"), ("velocity", "value")]));
    let out = transformer.transform(note_on(0, 60, 100)).unwrap();
    assert_eq!(out.to_bytes(), Some(vec![0xB0, 0x3C, 0x64]));
}

#[test]
fn unmatched_drop() {
    let input =
        MessageTemplate::NoteOn { channel: any(), note: vec![Number::Value(60)], velocity: any() };
    let output =
        MessageTemplate::NoteOn { channel: any(), note: vec![Number::Value(60)], velocity: any() };
    let transformer = transformer(input, output, FieldMap::new());
    assert_eq!(transformer.transform(note_on(0, 61, 64)), None);
    assert_eq!(transformer.transform(note_on(0, 60, 64)), Some(note_on(0, 60, 64)));
}

#[test]
fn identity_transform_hands_on_what_matches() {
    let template = || MessageTemplate::NoteOn {
        channel: vec![Number::Value(1), Number::Range(Range(4, 9))],
        note: vec![Number::Range(Range(60, 72)), Number::Value(0)],
        velocity: vec![Number::Range(Range(1, 127))],
    };
    let transformer = transformer(template(), template(), FieldMap::new());
    for channel in 0..16u8 {
        for key in [0u8, 1, 59, 60, 66, 72, 73, 127] {
            for velocity in [0u8, 1, 64, 127] {
                let event = note_on(channel, key, velocity);
                let matched = template().matches(event.clone()).is_some();
                let expected =
                    (channel == 1 || (4..=9).contains(&channel))
                        && ((60..=72).contains(&key) || key == 0)
                        && velocity >= 1;
                assert_eq!(matched, expected);
                let out = transformer.transform(event.clone());
                assert_eq!(out == Some(event), matched);
            }
        }
    }
}

#[test]
fn identity_transform_of_every_kind() {
    let cases: Vec<(MessageTemplate, MessageTemplate, MidiEvent)> = vec![
        (
            MessageTemplate::NoteOff { channel: any(), note: any(), velocity: any() },
            MessageTemplate::NoteOff { channel: any(), note: any(), velocity: any() },
            MidiEvent::Voice(ChannelMessage::NoteOff { channel: 3, key: 1, velocity: 2 }),
        ),
        (
            MessageTemplate::ControlChange { channel: any(), controller: any(), value: any() },
            MessageTemplate::ControlChange { channel: any(), controller: any(), value: any() },
            MidiEvent::Voice(ChannelMessage::ControlChange { channel: 3, controller: 1, value: 2 }),
        ),
        (
            MessageTemplate::ProgramChange { channel: any(), program: any() },
            MessageTemplate::ProgramChange { channel: any(), program: any() },
            MidiEvent::Voice(ChannelMessage::ProgramChange { channel: 15, program: 127 }),
        ),
        (
            MessageTemplate::PolyPressure { channel: any(), note: any(), pressure: any() },
            MessageTemplate::PolyPressure { channel: any(), note: any(), pressure: any() },
            MidiEvent::Voice(ChannelMessage::PolyAftertouch { channel: 0, key: 9, pressure: 8 }),
        ),
        (
            MessageTemplate::ChannelPressure { channel: any(), pressure: any() },
            MessageTemplate::ChannelPressure { channel: any(), pressure: any() },
            MidiEvent::Voice(ChannelMessage::ChannelAftertouch { channel: 0, pressure: 8 }),
        ),
        (
            MessageTemplate::PitchBend {
                channel: any(),
                bend: vec![Number::Range(Range(0, 16383))],
            },
            MessageTemplate::PitchBend {
                channel: any(),
                bend: vec![Number::Range(Range(0, 16383))],
            },
            MidiEvent::Voice(ChannelMessage::PitchBend { channel: 0, bend: 12345 }),
        ),
    ];
    for (input, output, event) in cases {
        let transformer = transformer(input, output, FieldMap::new());
        assert_eq!(transformer.transform(event.clone()), Some(event));
        assert_eq!(transformer.transform(note_on(0, 1, 2)), None);
    }
}

#[test]
fn a_template_matches_its_own_kind_only() {
    let template = note_on_any();
    assert!(template.matches(note_on(0, 60, 64)).is_some());
    assert_eq!(
        template.matches(MidiEvent::Voice(ChannelMessage::NoteOff {
            channel: 0,
            key: 60,
            velocity: 64
        })),
        None
    );
    assert_eq!(template.matches(MidiEvent::SysEx(vec![1, 2])), None);
    assert_eq!(template.matches(MidiEvent::Realtime(0xF8)), None);
}

#[test]
fn a_match_names_each_field_with_index_and_witness() {
    let template = MessageTemplate::NoteOn {
        channel: vec![Number::Value(5), Number::Any],
        note: vec![Number::Range(Range(60, 70))],
        velocity: vec![Number::Value(1), Number::Value(2), Number::Value(64)],
    };
    let matched = template.matches(note_on(3, 65, 64)).unwrap();
    assert_eq!(
        matched.entries,
        vec![
            entry("channel", 1, NumberMatch::Value(3)),
            entry("note", 0, NumberMatch::Range(Position { offset: 5, span: 10 })),
            entry("velocity", 2, NumberMatch::Value(64)),
        ]
    );
    assert_eq!(matched.get("note"), Some((0, NumberMatch::Range(Position { offset: 5, span: 10 }))));
    assert_eq!(matched.get("bend"), None);
    assert_eq!(template.matches(note_on(3, 65, 63)), None);
    assert_eq!(template.matches(note_on(3, 71, 64)), None);
}

#[test]
fn an_empty_list_matches_nothing() {
    let template = MessageTemplate::NoteOn { channel: vec![], note: any(), velocity: any() };
    assert_eq!(template.matches(note_on(0, 60, 64)), None);
}

#[test]
fn generate_needs_every_field() {
    let template = note_on_any();
    let mut matched = Match::new();
    matched.insert("channel".to_string(), 0, NumberMatch::Value(1));
    matched.insert("note".to_string(), 0, NumberMatch::Value(2));
    assert_eq!(template.generate(matched.clone()), None);
    matched.insert("velocity".to_string(), 0, NumberMatch::Value(3));
    matched.insert("bend".to_string(), 7, NumberMatch::Value(9));
    assert_eq!(template.generate(matched), Some(note_on(1, 2, 3)));
}

#[test]
fn generate_fails_on_an_index_beyond_the_list() {
    let template = note_on_any();
    let mut matched = Match::new();
    matched.insert("channel".to_string(), 0, NumberMatch::Value(1));
    matched.insert("note".to_string(), 1, NumberMatch::Value(2));
    matched.insert("velocity".to_string(), 0, NumberMatch::Value(3));
    assert_eq!(template.generate(matched), None);
}

#[test]
fn generate_fails_on_a_witness_of_the_other_kind() {
    let template = note_on_any();
    let mut matched = Match::new();
    matched.insert("channel".to_string(), 0, NumberMatch::Value(1));
    matched.insert("note".to_string(), 0, NumberMatch::Range(Position { offset: 1, span: 2 }));
    matched.insert("velocity".to_string(), 0, NumberMatch::Value(3));
    assert_eq!(template.generate(matched), None);
}

#[test]
fn generate_fails_on_a_channel_beyond_fifteen() {
    let template = note_on_any();
    let mut matched = Match::new();
    matched.insert("channel".to_string(), 0, NumberMatch::Value(16));
    matched.insert("note".to_string(), 0, NumberMatch::Value(2));
    matched.insert("velocity".to_string(), 0, NumberMatch::Value(3));
    assert_eq!(template.generate(matched), None);
}

#[test]
fn a_later_entry_replaces_an_earlier_one() {
    let mut matched = Match::new();
    assert_eq!(matched.get("note"), None);
    matched.insert("note".to_string(), 0, NumberMatch::Value(1));
    matched.insert("note".to_string(), 3, NumberMatch::Value(2));
    assert_eq!(matched.get("note"), Some((3, NumberMatch::Value(2))));
}

#[test]
fn renaming_leaves_unnamed_fields_alone() {
    let map = rename(&[("note", "controller"), ("velocity", "value"), ("note", "program")]);
    assert_eq!(map.target(&"note".to_string()), "program");
    assert_eq!(map.target(&"velocity".to_string()), "value");
    assert_eq!(map.target(&"channel".to_string()), "channel");
    assert_eq!(FieldMap::new().target(&"bend".to_string()), "bend");

    let mut matched = Match::new();
    matched.insert("channel".to_string(), 0, NumberMatch::Value(1));
    matched.insert("velocity".to_string(), 2, NumberMatch::Value(3));
    let renamed = map.rename_all(&matched);
    assert_eq!(
        renamed.entries,
        vec![entry("channel", 0, NumberMatch::Value(1)), entry("value", 2, NumberMatch::Value(3))]
    );
}

#[test]
fn a_missing_output_field_yields_nothing() {
    let output = MessageTemplate::ControlChange { channel: any(), controller: any(), value: any() };
    let transformer = transformer(note_on_any(), output, rename(&[("note", "controller")]));
    assert_eq!(transformer.transform(note_on(0, 60, 100)), None);
}

#[test]
fn a_literal_on_the_way_out_replaces_the_matched_value() {
    let output = MessageTemplate::NoteOn {
        channel: vec![Number::Value(9)],
        note: any(),
        velocity: vec![Number::Value(127)],
    };
    let transformer = transformer(note_on_any(), output, FieldMap::new());
    assert_eq!(transformer.transform(note_on(0, 60, 1)), Some(note_on(9, 60, 127)));
}

#[test]
fn the_index_of_the_match_picks_the_output_specifier() {
    let input = MessageTemplate::NoteOn {
        channel: any(),
        note: vec![Number::Value(60), Number::Value(62)],
        velocity: any(),
    };
    let output = MessageTemplate::NoteOn {
        channel: any(),
        note: vec![Number::Value(1), Number::Value(2)],
        velocity: any(),
    };
    let transformer = transformer(input, output, FieldMap::new());
    assert_eq!(transformer.transform(note_on(0, 60, 5)), Some(note_on(0, 1, 5)));
    assert_eq!(transformer.transform(note_on(0, 62, 5)), Some(note_on(0, 2, 5)));
    assert_eq!(transformer.transform(note_on(0, 61, 5)), None);
}

#[test]
fn a_template_with_an_empty_or_inverted_field_is_not_well_formed() {
    assert!(note_on_any().is_valid());
    assert!(MessageTemplate::PitchBend {
        channel: vec![Number::Value(1), Number::Range(Range(2, 2))],
        bend: vec![Number::Range(Range(0, 16383))],
    }
    .is_valid());
    assert!(!MessageTemplate::NoteOn { channel: vec![], note: any(), velocity: any() }.is_valid());
    assert!(!MessageTemplate::ProgramChange {
        channel: any(),
        program: vec![Number::Any, Number::Range(Range(3, 2))],
    }
    .is_valid());
}
