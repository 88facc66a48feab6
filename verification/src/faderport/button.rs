//! The buttons of the control surface and the ids they travel under.

use vstd::prelude::*;

verus! {

/// A button of the control surface. The buttons of a channel strip carry
/// the strip's number, from 1 to 16.
#[derive(Debug, Clone, Copy, PartialEq, Eq, Structural)]
pub enum Button {

    // Channel strip controls
    Solo(u8),
    Mute(u8),
    Select(u8),
    FaderTouch(u8),

    // General controls (left side)
    PanEncoder,
    Arm,
    SoloClear,
    MuteClear,
    Bypass,
    Macro,
    Link,
    LeftShift,

    // Fader mode buttons
    Track,
    EditPlugins,
    Sends,
    Pan,

    // Session navigator
    Prev,
    BigEncoder,
    Next,
    Channel,
    Zoom,
    Scroll,
    Bank,
    Master,
    Click,
    Section,
    Marker,

    // Mix management
    Audio,
    VI,
    Bus,
    Vca,
    All,
    RightShift,

    // Automation
    Read,
    Write,
    Trim,
    Touch,
    Latch,
    Off,

    // Transport
    Loop,
    Rewind,
    FastForward,
    Stop,
    Play,
    Record,
    Footswitch,
}

/// The id of the Solo button of strip `n`.
pub open spec fn solo_id(n: u8) -> u8
    recommends
        1 <= n <= 16,
{
    if n <= 8 {
        (0x07 + n) as u8
    } else if n == 12 {
        0x58
    } else if n == 15 {
        0x59
    } else {
        (0x47 + n) as u8
    }
}

/// The id of the Mute button of strip `n`.
pub open spec fn mute_id(n: u8) -> u8
    recommends
        1 <= n <= 16,
{
    if n <= 8 {
        (0x0F + n) as u8
    } else {
        (0x6F + n) as u8
    }
}

/// The id of the Select button of strip `n`.
pub open spec fn select_id(n: u8) -> u8
    recommends
        1 <= n <= 16,
{
    if n == 9 {
        0x07
    } else {
        (0x17 + n) as u8
    }
}

/// The id under which a touch of the fader of strip `n` is reported.
pub open spec fn fader_touch_id(n: u8) -> u8
    recommends
        1 <= n <= 16,
{
    (0x67 + n) as u8
}

impl Button {
    /// A strip button names a strip from 1 to 16.
    pub open spec fn wf(self) -> bool {
        match self {
            Button::Solo(n) => 1 <= n <= 16,
            Button::Mute(n) => 1 <= n <= 16,
            Button::Select(n) => 1 <= n <= 16,
            Button::FaderTouch(n) => 1 <= n <= 16,
            _ => true,
        }
    }

    /// The id that the button travels under.
    pub open spec fn spec_to_byte(self) -> u8
        recommends
            self.wf(),
    {
        match self {
            Button::Solo(n) => solo_id(n),
            Button::Mute(n) => mute_id(n),
            Button::Select(n) => select_id(n),
            Button::FaderTouch(n) => fader_touch_id(n),
            Button::PanEncoder => 0x20,
            Button::Arm => 0x00,
            Button::SoloClear => 0x01,
            Button::MuteClear => 0x02,
            Button::Bypass => 0x03,
            Button::Macro => 0x04,
            Button::Link => 0x05,
            Button::LeftShift => 0x06,
            Button::Track => 0x28,
            Button::EditPlugins => 0x2b,
            Button::Sends => 0x29,
            Button::Pan => 0x2a,
            Button::Prev => 0x2e,
            Button::BigEncoder => 0x53,
            Button::Next => 0x2f,
            Button::Channel => 0x36,
            Button::Zoom => 0x37,
            Button::Scroll => 0x38,
            Button::Bank => 0x39,
            Button::Master => 0x3a,
            Button::Click => 0x3b,
            Button::Section => 0x3c,
            Button::Marker => 0x3d,
            Button::Audio => 0x3e,
            Button::VI => 0x3f,
            Button::Bus => 0x40,
            Button::Vca => 0x41,
            Button::All => 0x42,
            Button::RightShift => 0x46,
            Button::Read => 0x4a,
            Button::Write => 0x4b,
            Button::Trim => 0x4c,
            Button::Touch => 0x4d,
            Button::Latch => 0x4e,
            Button::Off => 0x4f,
            Button::Loop => 0x56,
            Button::Rewind => 0x5b,
            Button::FastForward => 0x5c,
            Button::Stop => 0x5d,
            Button::Play => 0x5e,
            Button::Record => 0x5f,
            Button::Footswitch => 0x66,
        }
    }

    /// Whether some button travels under `id`.
    pub open spec fn is_id(id: u8) -> bool {
        exists|button: Button| button.wf() && #[trigger] button.spec_to_byte() == id
    }

    /// The button that travels under `id`, if there is one.
    pub fn checked_from_byte(id: u8) -> (r: Option<Button>)
        ensures
            r matches Some(button) ==> button.wf() && button.spec_to_byte() == id,
            r is None ==> !Button::is_id(id),
    {
        let r = match id {
            0x08 => Some(Button::Solo(1)),
            0x09 => Some(Button::Solo(2)),
            0x0a => Some(Button::Solo(3)),
            0x0b => Some(Button::Solo(4)),
            0x0c => Some(Button::Solo(5)),
            0x0d => Some(Button::Solo(6)),
            0x0e => Some(Button::Solo(7)),
            0x0f => Some(Button::Solo(8)),
            0x50 => Some(Button::Solo(9)),
            0x51 => Some(Button::Solo(10)),
            0x52 => Some(Button::Solo(11)),
            0x58 => Some(Button::Solo(12)),
            0x54 => Some(Button::Solo(13)),
            0x55 => Some(Button::Solo(14)),
            0x59 => Some(Button::Solo(15)),
            0x57 => Some(Button::Solo(16)),
            0x10 => Some(Button::Mute(1)),
            0x11 => Some(Button::Mute(2)),
            0x12 => Some(Button::Mute(3)),
            0x13 => Some(Button::Mute(4)),
            0x14 => Some(Button::Mute(5)),
            0x15 => Some(Button::Mute(6)),
            0x16 => Some(Button::Mute(7)),
            0x17 => Some(Button::Mute(8)),
            0x78 => Some(Button::Mute(9)),
            0x79 => Some(Button::Mute(10)),
            0x7a => Some(Button::Mute(11)),
            0x7b => Some(Button::Mute(12)),
            0x7c => Some(Button::Mute(13)),
            0x7d => Some(Button::Mute(14)),
            0x7e => Some(Button::Mute(15)),
            0x7f => Some(Button::Mute(16)),
            0x18 => Some(Button::Select(1)),
            0x19 => Some(Button::Select(2)),
            0x1a => Some(Button::Select(3)),
            0x1b => Some(Button::Select(4)),
            0x1c => Some(Button::Select(5)),
            0x1d => Some(Button::Select(6)),
            0x1e => Some(Button::Select(7)),
            0x1f => Some(Button::Select(8)),
            0x07 => Some(Button::Select(9)),
            0x21 => Some(Button::Select(10)),
            0x22 => Some(Button::Select(11)),
            0x23 => Some(Button::Select(12)),
            0x24 => Some(Button::Select(13)),
            0x25 => Some(Button::Select(14)),
            0x26 => Some(Button::Select(15)),
            0x27 => Some(Button::Select(16)),
            0x68 => Some(Button::FaderTouch(1)),
            0x69 => Some(Button::FaderTouch(2)),
            0x6a => Some(Button::FaderTouch(3)),
            0x6b => Some(Button::FaderTouch(4)),
            0x6c => Some(Button::FaderTouch(5)),
            0x6d => Some(Button::FaderTouch(6)),
            0x6e => Some(Button::FaderTouch(7)),
            0x6f => Some(Button::FaderTouch(8)),
            0x70 => Some(Button::FaderTouch(9)),
            0x71 => Some(Button::FaderTouch(10)),
            0x72 => Some(Button::FaderTouch(11)),
            0x73 => Some(Button::FaderTouch(12)),
            0x74 => Some(Button::FaderTouch(13)),
            0x75 => Some(Button::FaderTouch(14)),
            0x76 => Some(Button::FaderTouch(15)),
            0x77 => Some(Button::FaderTouch(16)),
            0x20 => Some(Button::PanEncoder),
            0x00 => Some(Button::Arm),
            0x01 => Some(Button::SoloClear),
            0x02 => Some(Button::MuteClear),
            0x03 => Some(Button::Bypass),
            0x04 => Some(Button::Macro),
            0x05 => Some(Button::Link),
            0x06 => Some(Button::LeftShift),
            0x28 => Some(Button::Track),
            0x2b => Some(Button::EditPlugins),
            0x29 => Some(Button::Sends),
            0x2a => Some(Button::Pan),
            0x2e => Some(Button::Prev),
            0x53 => Some(Button::BigEncoder),
            0x2f => Some(Button::Next),
            0x36 => Some(Button::Channel),
            0x37 => Some(Button::Zoom),
            0x38 => Some(Button::Scroll),
            0x39 => Some(Button::Bank),
            0x3a => Some(Button::Master),
            0x3b => Some(Button::Click),
            0x3c => Some(Button::Section),
            0x3d => Some(Button::Marker),
            0x3e => Some(Button::Audio),
            0x3f => Some(Button::VI),
            0x40 => Some(Button::Bus),
            0x41 => Some(Button::Vca),
            0x42 => Some(Button::All),
            0x46 => Some(Button::RightShift),
            0x4a => Some(Button::Read),
            0x4b => Some(Button::Write),
            0x4c => Some(Button::Trim),
            0x4d => Some(Button::Touch),
            0x4e => Some(Button::Latch),
            0x4f => Some(Button::Off),
            0x56 => Some(Button::Loop),
            0x5b => Some(Button::Rewind),
            0x5c => Some(Button::FastForward),
            0x5d => Some(Button::Stop),
            0x5e => Some(Button::Play),
            0x5f => Some(Button::Record),
            0x66 => Some(Button::Footswitch),
            _ => None,
        };
        proof {
            if r is None {
                assert forall|button: Button| button.wf() implies #[trigger] button.spec_to_byte()
                    != id by {
                    lemma_strip_ids(button);
                }
            }
        }
        r
    }

    /// The button that travels under `id`.
    pub fn from_byte(id: u8) -> (button: Button)
        requires
            Button::is_id(id),
        ensures
            button.wf(),
            button.spec_to_byte() == id,
    {
        match Button::checked_from_byte(id) {
            Some(button) => button,
            None => Button::Arm,
        }
    }

    /// Whether the button names a strip that exists: see [`Button::wf`].
    pub fn is_valid(&self) -> (r: bool)
        ensures
            r == self.wf(),
    {
        match self {
            Button::Solo(n) => 1 <= *n && *n <= 16,
            Button::Mute(n) => 1 <= *n && *n <= 16,
            Button::Select(n) => 1 <= *n && *n <= 16,
            Button::FaderTouch(n) => 1 <= *n && *n <= 16,
            _ => true,
        }
    }

    /// The id that the button travels under.
    pub fn to_byte(&self) -> (id: u8)
        requires
            self.wf(),
        ensures
            id == self.spec_to_byte(),
    {
        match self {
            Button::Solo(1) => 0x08,
            Button::Solo(2) => 0x09,
            Button::Solo(3) => 0x0a,
            Button::Solo(4) => 0x0b,
            Button::Solo(5) => 0x0c,
            Button::Solo(6) => 0x0d,
            Button::Solo(7) => 0x0e,
            Button::Solo(8) => 0x0f,
            Button::Solo(9) => 0x50,
            Button::Solo(10) => 0x51,
            Button::Solo(11) => 0x52,
            Button::Solo(12) => 0x58,
            Button::Solo(13) => 0x54,
            Button::Solo(14) => 0x55,
            Button::Solo(15) => 0x59,
            Button::Solo(16) => 0x57,
            Button::Solo(_) => 0x00,
            Button::Mute(1) => 0x10,
            Button::Mute(2) => 0x11,
            Button::Mute(3) => 0x12,
            Button::Mute(4) => 0x13,
            Button::Mute(5) => 0x14,
            Button::Mute(6) => 0x15,
            Button::Mute(7) => 0x16,
            Button::Mute(8) => 0x17,
            Button::Mute(9) => 0x78,
            Button::Mute(10) => 0x79,
            Button::Mute(11) => 0x7a,
            Button::Mute(12) => 0x7b,
            Button::Mute(13) => 0x7c,
            Button::Mute(14) => 0x7d,
            Button::Mute(15) => 0x7e,
            Button::Mute(16) => 0x7f,
            Button::Mute(_) => 0x00,
            Button::Select(1) => 0x18,
            Button::Select(2) => 0x19,
            Button::Select(3) => 0x1a,
            Button::Select(4) => 0x1b,
            Button::Select(5) => 0x1c,
            Button::Select(6) => 0x1d,
            Button::Select(7) => 0x1e,
            Button::Select(8) => 0x1f,
            Button::Select(9) => 0x07,
            Button::Select(10) => 0x21,
            Button::Select(11) => 0x22,
            Button::Select(12) => 0x23,
            Button::Select(13) => 0x24,
            Button::Select(14) => 0x25,
            Button::Select(15) => 0x26,
            Button::Select(16) => 0x27,
            Button::Select(_) => 0x00,
            Button::FaderTouch(1) => 0x68,
            Button::FaderTouch(2) => 0x69,
            Button::FaderTouch(3) => 0x6a,
            Button::FaderTouch(4) => 0x6b,
            Button::FaderTouch(5) => 0x6c,
            Button::FaderTouch(6) => 0x6d,
            Button::FaderTouch(7) => 0x6e,
            Button::FaderTouch(8) => 0x6f,
            Button::FaderTouch(9) => 0x70,
            Button::FaderTouch(10) => 0x71,
            Button::FaderTouch(11) => 0x72,
            Button::FaderTouch(12) => 0x73,
            Button::FaderTouch(13) => 0x74,
            Button::FaderTouch(14) => 0x75,
            Button::FaderTouch(15) => 0x76,
            Button::FaderTouch(16) => 0x77,
            Button::FaderTouch(_) => 0x00,
            Button::PanEncoder => 0x20,
            Button::Arm => 0x00,
            Button::SoloClear => 0x01,
            Button::MuteClear => 0x02,
            Button::Bypass => 0x03,
            Button::Macro => 0x04,
            Button::Link => 0x05,
            Button::LeftShift => 0x06,
            Button::Track => 0x28,
            Button::EditPlugins => 0x2b,
            Button::Sends => 0x29,
            Button::Pan => 0x2a,
            Button::Prev => 0x2e,
            Button::BigEncoder => 0x53,
            Button::Next => 0x2f,
            Button::Channel => 0x36,
            Button::Zoom => 0x37,
            Button::Scroll => 0x38,
            Button::Bank => 0x39,
            Button::Master => 0x3a,
            Button::Click => 0x3b,
            Button::Section => 0x3c,
            Button::Marker => 0x3d,
            Button::Audio => 0x3e,
            Button::VI => 0x3f,
            Button::Bus => 0x40,
            Button::Vca => 0x41,
            Button::All => 0x42,
            Button::RightShift => 0x46,
            Button::Read => 0x4a,
            Button::Write => 0x4b,
            Button::Trim => 0x4c,
            Button::Touch => 0x4d,
            Button::Latch => 0x4e,
            Button::Off => 0x4f,
            Button::Loop => 0x56,
            Button::Rewind => 0x5b,
            Button::FastForward => 0x5c,
            Button::Stop => 0x5d,
            Button::Play => 0x5e,
            Button::Record => 0x5f,
            Button::Footswitch => 0x66,
        }
    }
}

/// The ids of the strip buttons, strip by strip.
proof fn lemma_strip_ids(button: Button)
    requires
        button.wf(),
    ensures
        button matches Button::Solo(n) ==> button.spec_to_byte() == (if n == 1 {
            0x08u8
        } else if n == 2 {
            0x09u8
        } else if n == 3 {
            0x0au8
        } else if n == 4 {
            0x0bu8
        } else if n == 5 {
            0x0cu8
        } else if n == 6 {
            0x0du8
        } else if n == 7 {
            0x0eu8
        } else if n == 8 {
            0x0fu8
        } else if n == 9 {
            0x50u8
        } else if n == 10 {
            0x51u8
        } else if n == 11 {
            0x52u8
        } else if n == 12 {
            0x58u8
        } else if n == 13 {
            0x54u8
        } else if n == 14 {
            0x55u8
        } else if n == 15 {
            0x59u8
        } else {
            0x57u8
        }),
        button matches Button::Mute(n) ==> 0x10 <= button.spec_to_byte() <= 0x17 || 0x78
            <= button.spec_to_byte() <= 0x7f,
        button matches Button::Select(n) ==> 0x18 <= button.spec_to_byte() <= 0x1f || 0x21
            <= button.spec_to_byte() <= 0x27 || button.spec_to_byte() == 0x07,
        button matches Button::FaderTouch(n) ==> 0x68 <= button.spec_to_byte() <= 0x77,
{
}

/// No two buttons travel under the same id.
pub proof fn lemma_button_ids_differ(a: Button, b: Button)
    requires
        a.wf(),
        b.wf(),
        a.spec_to_byte() == b.spec_to_byte(),
    ensures
        a == b,
{
    lemma_strip_ids(a);
    lemma_strip_ids(b);
}

} // verus!
