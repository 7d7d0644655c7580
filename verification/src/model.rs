//! The vocabulary of the waveform format: encodings, analysis modes, storage
//! flags, sample types and the plain records that a decoded file consists of.

use vstd::prelude::*;

verus! {

/// The analysis that produced a waveform file.
#[derive(Debug, Clone, Copy, PartialEq, Eq, Structural)]
pub enum Mode {
    Transient,
    FFT,
    AC,
    DC,
    Noise,
    OperatingPoint,
}

impl Mode {
    /// Frequency-domain analyses store every sample as a complex number.
    pub open spec fn complex(self) -> bool {
        self == Mode::AC || self == Mode::FFT
    }

    #[verifier::when_used_as_spec(complex)]
    pub fn is_complex(self) -> (r: bool)
        ensures
            r == self.complex(),
    {
        match self {
            Mode::AC => true,
            Mode::FFT => true,
            _ => false,
        }
    }
}

/// How the samples of a waveform file are stored.
#[derive(Debug, Clone, Copy, PartialEq, Eq, Structural)]
pub enum FileType {
    Binary,
    ASCII,
}

/// The stored form of one sample.
#[derive(Debug, Clone, Copy, PartialEq, Eq, Structural)]
pub enum DataType {
    Float32,
    Float64,
    Complex128,
}

impl DataType {
    /// The number of payload bytes that one sample of this type occupies.
    pub open spec fn width(self) -> int {
        match self {
            DataType::Float32 => 4,
            DataType::Float64 => 8,
            DataType::Complex128 => 16,
        }
    }

    /// The number of payload bytes that one sample of this type occupies.
    pub fn byte_width(self) -> (w: usize)
        ensures
            w == self.width(),
    {
        match self {
            DataType::Float32 => 4,
            DataType::Float64 => 8,
            DataType::Complex128 => 16,
        }
    }
}

/// The text encoding of a header.
#[derive(Debug, Clone, Copy, PartialEq, Eq, Structural)]
pub enum Encoding {
    UTF8,
    UTF16,
    UTF32,
    ASCII,
}

impl Encoding {
    /// The number of bytes in one code unit of the encoding.
    pub open spec fn unit_width(self) -> int {
        match self {
            Encoding::UTF8 => 1,
            Encoding::UTF16 => 2,
            Encoding::UTF32 => 4,
            Encoding::ASCII => 1,
        }
    }

    /// The number of bytes in one code unit of the encoding.
    pub fn code_unit_width(self) -> (w: usize)
        ensures
            w == self.unit_width(),
    {
        match self {
            Encoding::UTF8 => 1,
            Encoding::UTF16 => 2,
            Encoding::UTF32 => 4,
            Encoding::ASCII => 1,
        }
    }
}

/// A storage modifier named in the `Flags` field of a header.
#[derive(Debug, Clone, Copy, PartialEq, Eq, Structural)]
pub enum Flags {
    Stepped,
    Real,
    Double,
}

/// What a dependent variable measures.
#[derive(Debug, Clone, Copy, PartialEq, Eq, Structural)]
pub enum VariableClass {
    Voltage,
    Current,
    Frequency,
    Unknown,
}

/// The order in which the bytes of a stored number follow each other.
#[derive(Debug, Clone, Copy, PartialEq, Eq, Structural)]
pub enum ByteOrder {
    LittleEndian,
    BigEndian,
}

/// A dependent variable that the header declares. The name is the whole
/// expression, such as `V(out)`, and is the key under which its samples are
/// found.
#[derive(Debug)]
pub struct SteppedVariable {
    pub class: VariableClass,
    pub name: String,
}

/// Counts taken from the header and from the decoded payload.
///
/// `steps` and `step_size` describe the last step boundary that the decoder
/// found. Without any boundary `steps` is 0 and `step_size` is the length of
/// the payload in bytes.
#[derive(Debug, Clone, Copy, PartialEq, Eq, Structural)]
pub struct SimulationStats {
    pub variables: u32,
    pub points: u32,
    pub steps: u32,
    pub step_size: u64,
}

/// Why a path cannot be the source of a waveform.
#[derive(Debug, Clone, Copy, PartialEq, Eq, Structural)]
pub enum SourceFault {
    Missing,
    NotAFile,
    WrongExtension,
}

/// Why a file could not be decoded.
#[derive(Debug, Clone, Copy, PartialEq, Eq, Structural)]
pub enum ParseError {
    /// The path does not name an existing regular file with the extension `raw`.
    InvalidSource(SourceFault),
    /// Under no candidate encoding does the text hold `Values` or `Binary`.
    UndecodableHeader,
    /// The text does not hold the line `Binary:` that ends the header.
    MissingBoundaryMarker,
    /// `No. Points` or `No. Variables` is not an unsigned 32-bit number.
    MalformedNumericField,
    /// The payload does not have the length and variables that the header declares.
    LayoutMismatch,
}

/// What each error says in words.
pub open spec fn error_text(error: ParseError) -> Seq<char> {
    match error {
        ParseError::InvalidSource(SourceFault::Missing) => "File does not exist"@,
        ParseError::InvalidSource(SourceFault::NotAFile) => "The specified path is not a file."@,
        ParseError::InvalidSource(SourceFault::WrongExtension) => {
            "The specified path is not a '.raw' file."@
        },
        ParseError::UndecodableHeader => "Could not decode file."@,
        ParseError::MissingBoundaryMarker => "The header is not closed by a 'Binary:' line."@,
        ParseError::MalformedNumericField => {
            "The number of points or variables is not a number."@
        },
        ParseError::LayoutMismatch => {
            "Mismatch between expected and actual SPICE data length."@
        },
    }
}

impl ParseError {
    /// What the error says in words.
    pub fn message(&self) -> (text: &'static str)
        ensures
            text@ == error_text(*self),
    {
        match self {
            ParseError::InvalidSource(SourceFault::Missing) => "File does not exist",
            ParseError::InvalidSource(SourceFault::NotAFile) => {
                "The specified path is not a file."
            },
            ParseError::InvalidSource(SourceFault::WrongExtension) => {
                "The specified path is not a '.raw' file."
            },
            ParseError::UndecodableHeader => "Could not decode file.",
            ParseError::MissingBoundaryMarker => "The header is not closed by a 'Binary:' line.",
            ParseError::MalformedNumericField => {
                "The number of points or variables is not a number."
            },
            ParseError::LayoutMismatch => {
                "Mismatch between expected and actual SPICE data length."
            },
        }
    }
}

} // verus!
