//! Decoding of fixed-width market-data quote messages and their release in
//! event-time order through a bounded-latency watermark buffer.
//!
//! A captured frame goes through [`frame::quote_payload`], which finds the
//! quote payload in it, and [`wire::parse_quote_message`], which decodes the
//! payload. A [`sequencer::Sequencer`] then gives the messages out, either
//! as they arrive or by event time through a [`reorder::ReorderBuffer`], and
//! [`render::render_message`] writes them as text.

pub mod frame;
pub mod quote;
pub mod render;
pub mod reorder;
pub mod sequencer;
pub mod text;
pub mod time;
pub mod wire;

pub use crate::frame::quote_payload;
pub use crate::quote::{Decoded, PriceLevel, QuoteMessage};
pub use crate::render::{format_system_time, render_message, OutputFormat};
pub use crate::reorder::ReorderBuffer;
pub use crate::sequencer::Sequencer;
pub use crate::time::{parse_accept_time, Timestamp};
pub use crate::wire::parse_quote_message;
