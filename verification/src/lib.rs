//! A hybrid quantum/classical instruction-sequence emulator.
//!
//! The machine owns a bank of quantum registers (dense complex amplitude
//! vectors of length `2^qbits`) and a bank of fixed-width wrapping classical
//! registers, and executes a program with a sequential fetch-execute loop.
//! Gates are applied with bit-masked in-place transforms that touch only the
//! amplitude pairs or quadruples a gate affects, never materializing the full
//! `2^n x 2^n` operator.
//!
//! Amplitude values themselves are opaque to the engine: every function that
//! moves them is generic over the amplitude type, and the 2x2 / 4x4 matrix
//! arithmetic is supplied by the caller as a closure (a matrix backend). The
//! engine's contracts pin down exactly which amplitudes move where, and relate
//! every transformed pair to the backend closure's postcondition.

pub mod emulator;
pub mod kernels;
pub mod program;
pub mod word;

pub use word::Word;
