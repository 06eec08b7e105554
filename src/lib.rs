//! Decoder for the "rules" reply of the game-server query protocol, including
//! the binary mod manifest that some servers smuggle inside the rule list.

pub mod cursor;
pub mod error;
pub mod rules;

pub use cursor::{read_byte, read_string, ByteCursor};
pub use error::DecodeError;
pub use rules::{decode, A2SRule, A2SRulesReply, Mod, RULES_REPLY_TAG};
