//! The rotary encoders of the control surface.

use vstd::prelude::*;

verus! {

#[derive(Debug, PartialEq, Eq, Clone, Copy, Structural)]
pub enum Encoder {
    Pan,
    Big,
}

impl Encoder {
    /// The id that the encoder travels under.
    pub open spec fn spec_to_byte(self) -> u8 {
        match self {
            Encoder::Pan => 0x10,
            Encoder::Big => 0x3C,
        }
    }

    /// Whether some encoder travels under `id`.
    pub open spec fn is_id(id: u8) -> bool {
        id == 0x10 || id == 0x3C
    }

    /// The encoder that travels under `id`, if there is one.
    pub fn checked_from_byte(id: u8) -> (r: Option<Encoder>)
        ensures
            r matches Some(encoder) ==> encoder.spec_to_byte() == id,
            r is Some <==> Encoder::is_id(id),
    {
        match id {
            0x10 => Some(Encoder::Pan),
            0x3C => Some(Encoder::Big),
            _ => None,
        }
    }

    /// The encoder that travels under `id`.
    pub fn from_byte(id: u8) -> (encoder: Encoder)
        requires
            Encoder::is_id(id),
        ensures
            encoder.spec_to_byte() == id,
    {
        match id {
            0x10 => Encoder::Pan,
            _ => Encoder::Big,
        }
    }

    /// The id that the encoder travels under.
    pub fn to_byte(&self) -> (id: u8)
        ensures
            id == self.spec_to_byte(),
            Encoder::is_id(id),
    {
        match self {
            Encoder::Pan => 0x10,
            Encoder::Big => 0x3C,
        }
    }
}

/// No two encoders travel under the same id.
pub proof fn lemma_encoder_ids_differ(a: Encoder, b: Encoder)
    requires
        a.spec_to_byte() == b.spec_to_byte(),
    ensures
        a == b,
{
}

} // verus!
