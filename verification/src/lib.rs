//! Core logic of a waveform/spectrum visualization demo.
//!
//! The library holds the parts of the pipeline that are plain integer
//! logic: the folded frequency axis of a discrete Fourier transform,
//! exact bin-to-hertz conversion as a rational number, selection of the
//! strongest spectral peaks from magnitude order keys, and the state of
//! the two display toggles. Floating-point synthesis, the transform
//! itself and the rendering live outside the library.

pub mod peaks;
pub mod spectrum;
pub mod view;
