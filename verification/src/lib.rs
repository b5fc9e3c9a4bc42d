//! Capture logic of a JACK oscilloscope: the ring of recorded samples, the
//! trace drawn from it, the input handed to the spectrum and the decision
//! taken on a GL compile or link status.

pub mod gl_status;
pub mod laws;
pub mod ring;
pub mod spectrum;
