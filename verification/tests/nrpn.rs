use bytes::BytesMut;
use gobetween::sq::message::{ButtonState, Message, Nrpn, Parsed, ValueState, ID};
use gobetween::utils::{join14, split14};

fn commands() -> Vec<(Nrpn, Vec<u8>)> {
    vec![
        (
            Nrpn::Absolute(ID(0x40, 0x07), 0x3F, 0x40),
            vec![0xB0, 0x63, 0x40, 0xB0, 0x62, 0x07, 0xB0, 0x06, 0x3F, 0xB0, 0x26, 0x40],
        ),
        (
            Nrpn::Increment(ID(0x01, 0x02)),
            vec![0xB0, 0x63, 0x01, 0xB0, 0x62, 0x02, 0xB0, 0x60, 0x00],
        ),
        (
            Nrpn::Decrement(ID(0x7F, 0x00)),
            vec![0xB0, 0x63, 0x7F, 0xB0, 0x62, 0x00, 0xB0, 0x61, 0x00],
        ),
        (Nrpn::Get(ID(0x00, 0x7F)), vec![0xB0, 0x63, 0x00, 0xB0, 0x62, 0x7F, 0xB0, 0x60, 0x7F]),
    ]
}

#[test]
fn each_command_has_its_byte_pattern() {
    for (command, bytes) in commands() {
        assert_eq!(command.to_bytes(), bytes);
        assert_eq!(command.to_bytes().len() % 3, 0);
    }
}

#[test]
fn absolute_round_trip() {
    let command = Nrpn::Absolute(ID(0x40, 0x07), 0x3F, 0x40);
    let bytes = command.to_bytes();
    assert_eq!(
        bytes,
        vec![0xB0, 0x63, 0x40, 0xB0, 0x62, 0x07, 0xB0, 0x06, 0x3F, 0xB0, 0x26, 0x40]
    );
    let mut buf = BytesMut::from(&bytes[..]);
    assert_eq!(Nrpn::from_buf(&mut buf), Some(command));
    assert!(buf.is_empty());
}

#[test]
fn parsing_what_was_emitted_gives_the_command_back() {
    for (command, bytes) in commands() {
        assert_eq!(Nrpn::parse(&bytes), Parsed::Command(command, bytes.len()));
        let mut longer = bytes.clone();
        longer.extend_from_slice(&[0xB0, 0x63, 0x11]);
        assert_eq!(Nrpn::parse(&longer), Parsed::Command(command, bytes.len()));
    }
}

#[test]
fn from_buf_advances_past_the_command_only() {
    for (command, bytes) in commands() {
        let mut buf = BytesMut::from(&bytes[..]);
        buf.extend_from_slice(&[0xB0, 0x07, 0x64]);
        assert_eq!(Nrpn::from_buf(&mut buf), Some(command));
        assert_eq!(&buf[..], &[0xB0, 0x07, 0x64]);
    }
}

#[test]
fn a_partial_command_holds_back() {
    for (_, bytes) in commands() {
        for len in 0..bytes.len() {
            assert_eq!(Nrpn::parse(&bytes[..len]), Parsed::Incomplete);
            let mut buf = BytesMut::from(&bytes[..len]);
            assert_eq!(Nrpn::from_buf(&mut buf), None);
            assert_eq!(&buf[..], &bytes[..len]);
        }
    }
}

#[test]
fn plain_control_changes_are_left_alone() {
    let others: Vec<Vec<u8>> = vec![
        vec![0xB0, 0x07, 0x64],
        vec![0xB1, 0x63, 0x40],
        vec![0x90, 0x3C, 0x40],
        vec![0xB0, 0x63, 0x40, 0xB0, 0x07, 0x64],
        vec![0xB0, 0x63, 0x80],
        vec![0xB0, 0x63, 0x40, 0xB0, 0x62, 0x07, 0xB0, 0x07, 0x00],
        vec![0xB0, 0x63, 0x40, 0xB0, 0x62, 0x07, 0xB0, 0x60, 0x01],
        vec![0xB0, 0x63, 0x40, 0xB0, 0x62, 0x07, 0xB0, 0x61, 0x7F],
        vec![0xB0, 0x63, 0x40, 0xB0, 0x62, 0x07, 0xB0, 0x06, 0x3F, 0xB0, 0x27, 0x40],
        vec![0xB0, 0x63, 0x40, 0xB0, 0x62, 0x07, 0xB0, 0x06, 0x3F, 0xB0, 0x26, 0x80],
        vec![0xB0, 0x63, 0x40, 0xB0, 0x62, 0x07, 0xB0, 0x06, 0x3F, 0x90],
    ];
    for bytes in others {
        assert_eq!(Nrpn::parse(&bytes), Parsed::NotNrpn);
        let mut buf = BytesMut::from(&bytes[..]);
        assert_eq!(Nrpn::from_buf(&mut buf), None);
        assert_eq!(&buf[..], &bytes[..]);
    }
}

#[test]
fn id_takes_seven_bit_halves() {
    assert_eq!(ID::new(0x40, 0x07), Some(ID(0x40, 0x07)));
    assert_eq!(ID::new(0x7F, 0x7F), Some(ID(0x7F, 0x7F)));
    assert_eq!(ID::new(0x80, 0x00), None);
    assert_eq!(ID::new(0x00, 0x80), None);
}

#[test]
fn level_travels_as_absolute() {
    let id = ID(0x40, 0x07);
    assert_eq!(Message::Level(id, 0x1FC0).to_nrpn(), Nrpn::Absolute(id, 0x3F, 0x40));
    assert_eq!(Message::from_nrpn(Nrpn::Absolute(id, 0x3F, 0x40)), Message::Level(id, 0x1FC0));
    assert_eq!(Message::Level(id, 0).to_nrpn(), Nrpn::Absolute(id, 0, 0));
    assert_eq!(Message::Level(id, 0x3FFF).to_nrpn(), Nrpn::Absolute(id, 0x7F, 0x7F));
    assert_eq!(Message::Level(id, 0xFFFF).to_nrpn(), Nrpn::Absolute(id, 0x7F, 0x7F));
}

#[test]
fn level_survives_the_way_through_its_command() {
    let id = ID(0x01, 0x02);
    for level in [0u16, 1, 127, 128, 129, 0x1234, 0x2000, 0x3FFF] {
        let message = Message::Level(id, level);
        assert_eq!(Message::from_nrpn(message.to_nrpn()), message);
    }
}

#[test]
fn fourteen_bits_split_and_join() {
    assert_eq!(split14(0x1FC0), (0x40, 0x3F));
    assert_eq!(join14(0x40, 0x3F), 0x1FC0);
    assert_eq!(split14(0x3FFF), (0x7F, 0x7F));
    assert_eq!(split14(0x4001), (0x01, 0x00));
    assert_eq!(join14(0x7F, 0x7F), 0x3FFF);
    assert_eq!(join14(0, 1), 128);
}

#[test]
fn commands_know_whether_they_are_well_formed() {
    for (command, _) in commands() {
        assert!(command.is_valid());
    }
    assert!(!Nrpn::Absolute(ID(0x80, 0), 0, 0).is_valid());
    assert!(!Nrpn::Absolute(ID(0, 0), 0x80, 0).is_valid());
    assert!(!Nrpn::Absolute(ID(0, 0), 0, 0xFF).is_valid());
    assert!(!Nrpn::Get(ID(0, 0x80)).is_valid());
    assert!(!Nrpn::Increment(ID(0x80, 0)).is_valid());
    assert!(!Nrpn::Decrement(ID(0xFF, 0xFF)).is_valid());
}

#[test]
fn value_states_and_their_commands() {
    let id = ID(0x40, 0x07);
    assert_eq!(ValueState::Absolute(0x1FC0).to_nrpn(id), Nrpn::Absolute(id, 0x3F, 0x40));
    assert_eq!(ValueState::Absolute(0xFFFF).to_nrpn(id), Nrpn::Absolute(id, 0x7F, 0x7F));
    assert_eq!(ValueState::Increment.to_nrpn(id), Nrpn::Increment(id));
    assert_eq!(ValueState::Decrement.to_nrpn(id), Nrpn::Decrement(id));
    assert_eq!(ValueState::Get.to_nrpn(id), Nrpn::Get(id));
    for state in [
        ValueState::Absolute(0),
        ValueState::Absolute(0x2000),
        ValueState::Absolute(0x3FFF),
        ValueState::Increment,
        ValueState::Decrement,
        ValueState::Get,
    ] {
        assert_eq!(ValueState::from_nrpn(state.to_nrpn(id)), state);
    }
}

#[test]
fn button_states_and_their_commands() {
    let id = ID(0x00, 0x44);
    assert_eq!(ButtonState::On.to_nrpn(id), Nrpn::Absolute(id, 0x00, 0x01));
    assert_eq!(ButtonState::Off.to_nrpn(id), Nrpn::Absolute(id, 0x00, 0x00));
    assert_eq!(ButtonState::Toggle.to_nrpn(id), Nrpn::Increment(id));
    assert_eq!(ButtonState::Get.to_nrpn(id), Nrpn::Get(id));
    for state in [ButtonState::On, ButtonState::Off, ButtonState::Toggle, ButtonState::Get] {
        assert_eq!(ButtonState::from_nrpn(state.to_nrpn(id)), Some(state));
    }
    assert_eq!(ButtonState::from_nrpn(Nrpn::Decrement(id)), None);
    assert_eq!(ButtonState::from_nrpn(Nrpn::Absolute(id, 0, 2)), None);
    assert_eq!(ButtonState::from_nrpn(Nrpn::Absolute(id, 1, 0)), None);
}
