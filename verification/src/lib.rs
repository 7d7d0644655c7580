//! Decoder for the waveform files that SPICE-family circuit simulators write:
//! a text header followed by a binary payload of interleaved samples.
//!
//! The decoder works on the bytes of a file. It finds the text encoding of the
//! header (`encoding`), splits the header into fields (`fields`), reads what
//! the known fields say (`header`, `variables`, `date`), derives the layout of
//! the payload (`layout`), and reads the samples into the steps of a stepped
//! simulation (`sample`, `steps`, `decode`). `parse` puts these together, and
//! `simulation` holds the result for queries by variable name and step.
//!
//! Samples are kept as the bit patterns of IEEE 754 binary64 numbers
//! (`numbers`); nothing here computes with floating-point numbers.
//!
//! Every function is verified against a contract over sequences of
//! characters, bytes and samples. What is taken on trust is little and marked:
//! the lossy decoders of the standard library, the byte order of the machine,
//! the date parser and the clock.

pub mod date;
pub mod decode;
pub mod encoding;
pub mod fields;
pub mod header;
pub mod layout;
pub mod model;
pub mod numbers;
pub mod parse;
pub mod sample;
pub mod simulation;
pub mod steps;
pub mod text;
pub mod variables;

pub use crate::model::{
    ByteOrder, DataType, Encoding, FileType, Flags, Mode, ParseError, SimulationStats, SourceFault,
    SteppedVariable, VariableClass,
};
pub use crate::sample::Value;
pub use crate::simulation::{SourceFile, SteppedSimulation};
