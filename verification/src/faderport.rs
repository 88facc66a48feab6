//! The controls of a fader control surface: buttons, encoders and faders,
//! and the ids they travel under.

pub mod button;
pub mod encoder;
pub mod fader;
pub mod message;
