//! Phonix: wake-word detection with voice-activity gating and pre-roll buffering.
//!
//! The verified core is generic over the sample type and never computes on
//! floating point itself. The detector holds its resampler, engines and sink
//! through handles that record every call made on them and what it answered;
//! its contract states, over those records, what its engines are fed and which
//! calls its sink receives, in which order and carrying which audio, and
//! `history` states what holds across any run of pushes.
use vstd::prelude::*;

pub mod error;
pub mod config;
pub mod sink;
pub mod ring;
pub mod chunks;
pub mod engine;
pub mod detector;
pub mod history;
pub mod recall;
pub mod listen;
pub mod eval;

pub use error::{Error, Result};
pub use config::{Config, ModelPaths};
pub use ring::PreRollRing;
pub use detector::Detector;
pub use engine::{MonoPassthrough, Resample, VoiceActivity, WakeWord};
pub use sink::{LogSink, StreamSink, VecSink, WakeEvent};

