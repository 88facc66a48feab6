use gobetween::mapping::{check_fields, FieldError};
use gobetween::message::{FieldMap, Number};
use gobetween::midi::message_template::MessageTemplate;

fn any() -> Vec<Number> {
    Number::default_vec()
}

fn rename(pairs: &[(&str, &str)]) -> FieldMap {
    let mut map = FieldMap::new();
    for (from, to) in pairs {
        map.insert(from.to_string(), to.to_string());
    }
    map
}

#[test]
fn each_template_names_its_fields() {
    let cases: Vec<(MessageTemplate, Vec<&str>)> = vec![
        (
            MessageTemplate::NoteOn { channel: any(), note: any(), velocity: any() },
            vec!["channel", "note", "velocity"],
        ),
        (
            MessageTemplate::NoteOff { channel: any(), note: any(), velocity: any() },
            vec!["channel", "note", "velocity"],
        ),
        (
            MessageTemplate::ControlChange { channel: any(), controller: any(), value: any() },
            vec!["channel", "controller", "value"],
        ),
        (MessageTemplate::ProgramChange { channel: any(), program: any() }, vec!["channel", "program"]),
        (
            MessageTemplate::PolyPressure { channel: any(), note: any(), pressure: any() },
            vec!["channel", "note", "pressure"],
        ),
        (
            MessageTemplate::ChannelPressure { channel: any(), pressure: any() },
            vec!["channel", "pressure"],
        ),
        (MessageTemplate::PitchBend { channel: any(), bend: any() }, vec!["channel", "bend"]),
    ];
    for (template, names) in cases {
        assert_eq!(template.fields(), names);
    }
}

#[test]
fn renamings_that_fit() {
    let note_on = MessageTemplate::NoteOn { channel: any(), note: any(), velocity: any() };
    let program = MessageTemplate::ProgramChange { channel: any(), program: any() };
    assert_eq!(check_fields(&note_on, &note_on, &FieldMap::new()), Ok(()));
    assert_eq!(check_fields(&note_on, &program, &rename(&[("note", "program")])), Ok(()));
    assert_eq!(
        check_fields(&note_on, &note_on, &rename(&[("note", "velocity"), ("velocity", "note")])),
        Ok(())
    );
    assert_eq!(check_fields(&note_on, &program, &FieldMap::new()), Ok(()));
}

#[test]
fn renamings_that_do_not_fit() {
    let note_on = MessageTemplate::NoteOn { channel: any(), note: any(), velocity: any() };
    let bend = MessageTemplate::PitchBend { channel: any(), bend: any() };
    assert_eq!(
        check_fields(&note_on, &bend, &rename(&[("velocity", "bend"), ("bend", "bend")])),
        Err(FieldError::UnknownField("bend".to_string()))
    );
    assert_eq!(
        check_fields(&note_on, &bend, &rename(&[("velocity", "note")])),
        Err(FieldError::UnknownField("note".to_string()))
    );
    assert_eq!(
        check_fields(&note_on, &bend, &rename(&[("velocity", "bend"), ("note", "bend")])),
        Err(FieldError::Collision("bend".to_string()))
    );
    assert_eq!(
        check_fields(&note_on, &bend, &rename(&[("note", "channel")])),
        Err(FieldError::Collision("channel".to_string()))
    );
}

#[test]
fn a_later_pair_for_the_same_field_counts() {
    let note_on = MessageTemplate::NoteOn { channel: any(), note: any(), velocity: any() };
    let map = rename(&[("note", "velocity"), ("note", "note")]);
    assert_eq!(check_fields(&note_on, &note_on, &map), Ok(()));
}
