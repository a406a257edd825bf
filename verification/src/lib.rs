//! Core of a shared-surface presence system: a relay hub that fans every
//! participant's position report out to all connections and evicts silent
//! ones, and the client-side engine that turns sparse target updates into
//! smooth motion, fading trails and an audio cue.
//!
//! Geometry is carried in milli-pixels (1/1000 of a pixel) and time in
//! milliseconds, so every quantity is an integer and every rule is proved.

pub mod audio;
pub mod hub;
pub mod motion;
pub mod peers;
pub mod trail;
pub mod wire;
