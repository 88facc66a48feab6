//! What the control surface reports.

use vstd::prelude::*;
use crate::faderport::button::{lemma_button_ids_differ, Button};
use crate::faderport::encoder::Encoder;
use crate::faderport::fader::Fader;
use crate::utils::{join14, spec_join14};

verus! {

#[derive(Debug, PartialEq, Eq, Clone, Copy, Structural)]
pub enum Message {
    ButtonPressed(Button),
    ButtonReleased(Button),
    /// A fader and its level, a fourteen-bit number.
    FaderLevel(Fader, u16),
    /// An encoder and the steps it was turned by.
    EncoderRotate(Encoder, i8),
}

/// The status under which a button reports.
pub const BUTTON_STATUS: u8 = 0x80;

/// The status under which an encoder reports.
pub const ENCODER_STATUS: u8 = 0xB0;

/// The steps that an encoder's data byte stands for: the low six bits are
/// the number of steps, and the bit above them is set for a turn to the right.
pub open spec fn spec_delta(byte: u8) -> int {
    if (byte / 64) % 2 == 1 {
        (byte % 64) as int
    } else {
        -((byte % 64) as int)
    }
}

/// What the three bytes of a report say, if they say anything.
///
/// - Under the button status, the second byte is a button's id and the
///   third tells whether it was pressed (`0x00`) or released (`0x7F`).
/// - Under the encoder status, the second byte is an encoder's id and the
///   third the steps it was turned by.
/// - Under a pitch wheel status, the channel names a fader, channel 0 the
///   fader of strip 1, and the two data bytes behind it are the halves of
///   its level, low half first.
pub open spec fn spec_from_midi(msg: Seq<u8>) -> Option<Message> {
    if msg.len() < 3 {
        None
    } else if msg[0] == BUTTON_STATUS {
        if Button::is_id(msg[1]) && (msg[2] == 0x00 || msg[2] == 0x7F) {
            let button = choose|button: Button| button.wf() && button.spec_to_byte() == msg[1];
            if msg[2] == 0x00 {
                Some(Message::ButtonPressed(button))
            } else {
                Some(Message::ButtonReleased(button))
            }
        } else {
            None
        }
    } else if msg[0] == ENCODER_STATUS {
        if msg[1] == 0x10 {
            Some(Message::EncoderRotate(Encoder::Pan, spec_delta(msg[2]) as i8))
        } else if msg[1] == 0x3C {
            Some(Message::EncoderRotate(Encoder::Big, spec_delta(msg[2]) as i8))
        } else {
            None
        }
    } else if 0xE0 <= msg[0] <= 0xEF && msg[1] < 0x80 && msg[2] < 0x80 {
        Some(Message::FaderLevel(Fader((msg[0] % 16 + 1) as u8), spec_join14(msg[1], msg[2])))
    } else {
        None
    }
}

impl Message {
    /// Reads a report of the control surface: see [`spec_from_midi`].
    pub fn from_midi(msg: &[u8]) -> (r: Option<Message>)
        ensures
            r == spec_from_midi(msg@),
    {
        if msg.len() < 3 {
            return None;
        }
        let status: u8 = msg[0];
        if status == BUTTON_STATUS {
            let state: u8 = msg[2];
            match Button::checked_from_byte(msg[1]) {
                Some(button) => {
                    proof {
                        let chosen = choose|b: Button| b.wf() && b.spec_to_byte() == msg@[1];
                        lemma_button_ids_differ(button, chosen);
                    }
                    if state == 0x00 {
                        Some(Message::ButtonPressed(button))
                    } else if state == 0x7F {
                        Some(Message::ButtonReleased(button))
                    } else {
                        None
                    }
                },
                None => None,
            }
        } else if status == ENCODER_STATUS {
            let byte: u8 = msg[2];
            let magnitude: i8 = (byte & 0x3F) as i8;
            assert(byte & 0x3F == byte % 64) by (bit_vector);
            assert((byte & 0x40 > 0) == ((byte / 64) % 2 == 1)) by (bit_vector);
            let delta: i8 = if byte & 0x40 > 0 {
                magnitude
            } else {
                -magnitude
            };
            match Encoder::checked_from_byte(msg[1]) {
                Some(encoder) => Some(Message::EncoderRotate(encoder, delta)),
                None => None,
            }
        } else if 0xE0 <= status && status <= 0xEF {
            let index: u8 = status & 0x0F;
            assert(status & 0x0F == status % 16) by (bit_vector);
            if msg[1] < 0x80 && msg[2] < 0x80 {
                Some(Message::FaderLevel(Fader(index + 1), join14(msg[1], msg[2])))
            } else {
                None
            }
        } else {
            None
        }
    }
}

} // verus!
