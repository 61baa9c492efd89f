//! Remote trackpad, keyboard and live window view for the cce desktop.

pub mod text;
pub mod words;
pub mod digits;
pub mod natural;
pub mod double;
pub mod number;
pub mod arith;
pub mod command;
pub mod command_laws;
pub mod pairing;
pub mod windows;
pub mod http;
pub mod session;
pub mod payload;
pub mod jpeg;
pub mod stream;
pub mod sender;
pub mod winstream;
pub mod screencopy;
pub mod producer;
pub mod word_laws;
pub mod pairing_laws;
pub mod number_laws;
pub mod smoothing_laws;
pub mod reading_laws;
pub mod meaning_laws;
pub mod window_laws;
pub mod request_laws;
pub mod picture_laws;
pub mod delivery_laws;
pub mod source_laws;
