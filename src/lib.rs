//! Copying bytes to a terminal's clipboard with an OSC 52 escape sequence:
//! `ESC ] 5 2 ; c ;`, the standard padded base64 of the bytes, then `BEL`.
//! The base64 body is produced incrementally, chunk by chunk, so that input of
//! any size can be streamed to the terminal.
pub mod b64;
pub mod bytes;
pub mod osc52;
pub mod session;
pub mod stream;
