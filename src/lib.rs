// Renders markdown as styled terminal text: a parser turns the document
// into events, a verified state machine turns the events into text with
// escape codes, reflowed lines and framed code blocks.

pub mod code_block;
pub mod event;
pub mod laws;
pub mod lines;
pub mod markdown;
pub mod render;
pub mod style;
pub mod text;
pub mod text_util;
pub mod width;
