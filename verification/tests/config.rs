use gobetween::config::{Config, ConnectionInfo, DeviceInfo, Error, Mapping, Route, Target};
use gobetween::message::{FieldMap, Number};
use gobetween::midi::message_template::MessageTemplate;

fn device(name: &str) -> DeviceInfo {
    DeviceInfo {
        name: name.to_string(),
        connection_info: ConnectionInfo::TcpMidi { midi_address: "127.0.0.1:51325".to_string() },
    }
}

fn note_on_any() -> MessageTemplate {
    MessageTemplate::NoteOn {
        channel: Number::default_vec(),
        note: Number::default_vec(),
        velocity: Number::default_vec(),
    }
}

fn rule(target: &str) -> Mapping {
    Mapping {
        message_template: note_on_any(),
        target: Target {
            name: target.to_string(),
            field_map: FieldMap::new(),
            message_template: note_on_any(),
        },
    }
}

#[test]
fn one_rule_one_route() {
    let config = Config {
        devices: vec![device("A"), device("B")],
        mappings: vec![("A".to_string(), vec![rule("B")])],
    };
    assert_eq!(config.routes(), Ok(vec![Route { from: 0, to: 1, source: 0, rule: 0 }]));
}

#[test]
fn routes_come_in_the_order_of_the_mappings() {
    let config = Config {
        devices: vec![device("A"), device("B"), device("C")],
        mappings: vec![
            ("C".to_string(), vec![rule("A"), rule("C")]),
            ("B".to_string(), vec![]),
            ("A".to_string(), vec![rule("B"), rule("B"), rule("C")]),
        ],
    };
    assert_eq!(
        config.routes(),
        Ok(vec![
            Route { from: 2, to: 0, source: 0, rule: 0 },
            Route { from: 2, to: 2, source: 0, rule: 1 },
            Route { from: 0, to: 1, source: 2, rule: 0 },
            Route { from: 0, to: 1, source: 2, rule: 1 },
            Route { from: 0, to: 2, source: 2, rule: 2 },
        ])
    );
}

#[test]
fn no_mappings_no_routes() {
    let config = Config { devices: vec![device("A")], mappings: vec![] };
    assert_eq!(config.routes(), Ok(vec![]));
    let empty = Config { devices: vec![], mappings: vec![] };
    assert_eq!(empty.routes(), Ok(vec![]));
}

#[test]
fn unknown_source_device() {
    let config = Config {
        devices: vec![device("A"), device("B")],
        mappings: vec![("A".to_string(), vec![rule("B")]), ("X".to_string(), vec![rule("Y")])],
    };
    assert_eq!(config.routes(), Err(Error::DeviceNotFound("X".to_string())));
}

#[test]
fn unknown_target_device() {
    let config = Config {
        devices: vec![device("A"), device("B")],
        mappings: vec![("A".to_string(), vec![rule("B"), rule("Y"), rule("Z")])],
    };
    assert_eq!(config.routes(), Err(Error::DeviceNotFound("Y".to_string())));
}

#[test]
fn duplicate_device_names() {
    let config = Config {
        devices: vec![device("A"), device("B"), device("C"), device("B"), device("A")],
        mappings: vec![("X".to_string(), vec![])],
    };
    assert_eq!(config.routes(), Err(Error::DuplicateDevice("B".to_string())));
}

#[test]
fn find_device_by_name() {
    let config = Config { devices: vec![device("A"), device("B")], mappings: vec![] };
    assert_eq!(config.find_device(&"A".to_string()), Some(0));
    assert_eq!(config.find_device(&"B".to_string()), Some(1));
    assert_eq!(config.find_device(&"b".to_string()), None);
}

fn rule_with(input: MessageTemplate, output: MessageTemplate, pairs: &[(&str, &str)]) -> Mapping {
    let mut field_map = FieldMap::new();
    for (from, to) in pairs {
        field_map.insert(from.to_string(), to.to_string());
    }
    Mapping {
        message_template: input,
        target: Target { name: "B".to_string(), field_map, message_template: output },
    }
}

fn control_change_any() -> MessageTemplate {
    MessageTemplate::ControlChange {
        channel: Number::default_vec(),
        controller: Number::default_vec(),
        value: Number::default_vec(),
    }
}

fn routes_of(rule: Mapping) -> Result<Vec<Route>, Error> {
    let config = Config {
        devices: vec![device("A"), device("B")],
        mappings: vec![("A".to_string(), vec![rule])],
    };
    config.routes()
}

#[test]
fn a_renaming_that_fits_is_routed() {
    let rule = rule_with(
        note_on_any(),
        control_change_any(),
        &[("note", "controller"), ("velocity", "value")],
    );
    assert_eq!(routes_of(rule), Ok(vec![Route { from: 0, to: 1, source: 0, rule: 0 }]));
}

#[test]
fn a_renaming_of_a_field_that_is_not_there() {
    let rule = rule_with(note_on_any(), control_change_any(), &[("bend", "value")]);
    assert_eq!(routes_of(rule), Err(Error::UnknownField("bend".to_string())));
    let rule = rule_with(note_on_any(), control_change_any(), &[("note", "program")]);
    assert_eq!(routes_of(rule), Err(Error::UnknownField("program".to_string())));
}

#[test]
fn a_renaming_that_collides() {
    let rule = rule_with(
        note_on_any(),
        control_change_any(),
        &[("note", "value"), ("velocity", "value")],
    );
    assert_eq!(routes_of(rule), Err(Error::FieldCollision("value".to_string())));
    let rule = rule_with(note_on_any(), note_on_any(), &[("note", "velocity")]);
    assert_eq!(routes_of(rule), Err(Error::FieldCollision("velocity".to_string())));
}

#[test]
fn an_unknown_target_counts_before_its_renaming() {
    let mut rule = rule_with(note_on_any(), control_change_any(), &[("bend", "value")]);
    rule.target.name = "Y".to_string();
    assert_eq!(routes_of(rule), Err(Error::DeviceNotFound("Y".to_string())));
}
