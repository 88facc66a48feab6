//! A configurable MIDI router.
//!
//! A configuration names devices and, for each device, mapping rules. A rule
//! matches a message of its device against a template, renames the fields
//! of the match and generates a message for another device from it.
//!
//! - [`midi`] holds the events, their wire encoding, the streaming decoder
//!   and the templates over channel-voice messages.
//! - [`message`] holds the value specifiers of a template's fields, the
//!   record of a match and the transformer.
//! - [`range`] reads a range specifier from text.
//! - [`mapping`] and [`config`] check a configuration and plan its routes.
//! - [`sq`] holds the NRPN commands of a mixing console, and [`buffer`] the
//!   byte buffer that they and the decoder read from.
//! - [`faderport`] holds the controls of a fader control surface.

pub mod buffer;
pub mod config;
pub mod faderport;
pub mod mapping;
pub mod message;
pub mod midi;
pub mod range;
pub mod sq;
pub mod utils;
