//! A block-quantised MIDI sequencer core.
//!
//! The sequencer walks a time-ordered list of messages and turns requests for
//! audio frames into the stream of commands that a synthesis engine has to
//! carry out: channel events at block boundaries, note releases on loop
//! wraparound, and the frames to produce in between.
//!
//! Time is counted in ticks. One frame of audio lasts [`synthesizer::SPEED_UNIT`]
//! ticks at unit speed, so the advance of one block is an exact integer.

pub mod message;
pub mod synthesizer;
pub mod model;
pub mod sequencer;
pub mod laws;
