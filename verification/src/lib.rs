//! Live speech recognition and translation.
//!
//! Audio comes in chunks. [`vad`] cuts it into stretches of speech, [`asr`] turns a stretch into
//! text and [`translator`] turns the text into another language. [`pipeline`] decides what is
//! done when: it is a state machine that is told what happened and says what to do next.
//! [`protocol`] holds the commands that it takes and the events that it reports.

pub mod asr;
pub mod audio;
pub mod config;
pub mod engine;
pub mod log;
pub mod pipeline;
pub mod protocol;
pub mod single;
pub mod text;
pub mod translator;
pub mod vad;
pub mod vocab;
pub mod wav;
