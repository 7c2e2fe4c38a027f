//! A webhook-driven tarot chat responder: a catalog of tarot card records
//! loaded from JSON texts, a fixed command set matched against inbound chat
//! messages, and the JSON reply payloads sent back to the messaging platform.

pub mod card;
pub mod handler;
pub mod help;
pub mod reply;
pub mod tarot_info;
pub mod text;

use vstd::prelude::*;

verus! {

/// The highest card id a chat message may ask for.
pub const MAX_CARD_ID: usize = 77;

} // verus!
