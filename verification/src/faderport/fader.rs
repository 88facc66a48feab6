//! The faders of the control surface.

use vstd::prelude::*;

verus! {

/// The fader of a channel strip, by the strip's number from 1 to 16.
#[derive(Debug, PartialEq, Eq, Clone, Copy, Structural)]
pub struct Fader(pub u8);

impl Fader {
    /// The fader names a strip from 1 to 16.
    pub open spec fn wf(self) -> bool {
        1 <= self.0 <= 16
    }

    /// The id that the fader travels under: `0x68` for the first strip and
    /// one more for each strip after it.
    pub open spec fn spec_to_byte(self) -> u8
        recommends
            self.wf(),
    {
        (0x67 + self.0) as u8
    }

    /// Whether some fader travels under `id`.
    pub open spec fn is_id(id: u8) -> bool {
        0x68 <= id <= 0x77
    }

    /// The fader that travels under `id`, if there is one.
    pub fn checked_from_byte(id: u8) -> (r: Option<Fader>)
        ensures
            r matches Some(fader) ==> fader.wf() && fader.spec_to_byte() == id,
            r is Some <==> Fader::is_id(id),
    {
        if 0x68 <= id && id <= 0x77 {
            Some(Fader(id - 0x67))
        } else {
            None
        }
    }

    /// The fader that travels under `id`.
    pub fn from_byte(id: u8) -> (fader: Fader)
        requires
            Fader::is_id(id),
        ensures
            fader.wf(),
            fader.spec_to_byte() == id,
    {
        Fader(id - 0x67)
    }

    /// The id that the fader travels under.
    pub fn to_byte(&self) -> (id: u8)
        requires
            self.wf(),
        ensures
            id == self.spec_to_byte(),
            Fader::is_id(id),
    {
        0x67 + self.0
    }
}

} // verus!
