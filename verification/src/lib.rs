//! Framing, splitting and decoding of the ASCII telegrams that a utility
//! meter sends over a serial line.
//!
//! Bytes read from the line go to a [`framer::Framer`], which hands out one
//! telegram each time the accumulated bytes end in `CR LF`. A telegram is cut
//! into an object code and a payload by [`splitter::split`], and the payload
//! is decoded by the rule that [`decoder::rule_for`] assigns to the code.
pub mod text;
pub mod framer;
pub mod splitter;
pub mod calendar;
pub mod decoder;
pub mod acquisition;
