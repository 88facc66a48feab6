//! MIDI 1.0: events, their wire encoding, the streaming decoder and the
//! message templates.

pub mod event;
pub mod codec;
pub mod roundtrip;
pub mod message_template;
pub mod stream;
