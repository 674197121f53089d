//! The rules of a two-player fighting game: what each button combination means, which
//! state a fighter moves to on input, on landing, on a hit, when stunned and when a state
//! runs out, how fighter data is checked, and which overlaps of hit and hurt boxes land a
//! hit. The physics and drawing live in the game program around this library.

pub mod input;
pub mod combo;
pub mod table;
pub mod fighter;
pub mod validation;
pub mod hits;
pub mod laws;
pub mod key_laws;
