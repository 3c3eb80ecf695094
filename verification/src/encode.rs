//! The error taxonomy, the frame header layout, and the tagged result type
//! shared by every stage of the codec engine.

use vstd::prelude::*;

verus! {

/// Why a decode or encode stage failed.
///
/// This is a closed set: every layer of the engine reports its failures
/// through one of these variants and none is ever downgraded or recovered
/// locally.
#[derive(Debug, Clone, Copy, PartialEq, Eq, Structural)]
pub enum EncodeError {
    /// The field buffer holds fewer than the 12 header bytes; the payload is
    /// the actual byte length.
    HeaderTooShort(usize),
    /// The header's codec id is outside 1..=15; the payload is that id.
    UnknownCodec(i32),
    /// The payload byte length is not aligned to the expected element width.
    TruncatedInput,
    /// Invalid UTF-8 in a string group, or an invalid Unicode scalar value in
    /// the character path, or a negative repetition count in a run-length
    /// payload.
    MalformedEncoding,
    /// A run-length payload whose length is odd, so it cannot be split into
    /// (value, count) pairs.
    OddLengthInput,
    /// Delta encoding asked of fewer than two elements.
    InsufficientLength,
    /// A quantization factor of zero, or a string chunk width that is not
    /// positive.
    InvalidParameter,
    /// An underlying byte-source read failure. The engine itself only works
    /// on in-memory buffers and never produces this; callers that feed it
    /// from a stream report their read failures with it.
    Io,
}

/// The three fields of the fixed 12-byte frame header, in wire order.
#[derive(Debug, Clone, Copy, PartialEq, Eq, Structural)]
pub struct HeaderLayout {
    /// Codec identifier selecting the decode pipeline.
    pub codec: i32,
    /// Declared element count of the decoded field.
    pub length: i32,
    /// Codec-dependent parameter: unused, a quantization divisor, or a
    /// string chunk width.
    pub parameter: i32,
}

/// One decoded field: exactly one variant per decode call.
///
/// Floating-point arrays are carried as IEEE-754 binary32 bit patterns.
#[derive(Debug)]
pub enum StrategyDataTypes {
    /// Codecs 1, 9, 10, 11, 12, 13: 32-bit floats, as their bit patterns.
    VecFloat32(Vec<u32>),
    /// Codec 2: 8-bit signed integers.
    VecInt8(Vec<i8>),
    /// Codec 3: 16-bit signed integers.
    VecInt16(Vec<i16>),
    /// Codecs 4, 7, 8, 14, 15: 32-bit signed integers.
    VecInt32(Vec<i32>),
    /// Codec 5: fixed-width strings.
    VecString(Vec<String>),
    /// Codec 6: Unicode scalar values.
    VecChar(Vec<char>),
}

/// The mathematical value of a decoded field, one sequence per variant.
pub enum StrategyValue {
    Float32(Seq<u32>),
    Int8(Seq<i8>),
    Int16(Seq<i16>),
    Int32(Seq<i32>),
    Strings(Seq<Seq<char>>),
    Chars(Seq<char>),
}

impl View for StrategyDataTypes {
    type V = StrategyValue;

    open spec fn view(&self) -> StrategyValue {
        match self {
            StrategyDataTypes::VecFloat32(v) => StrategyValue::Float32(v@),
            StrategyDataTypes::VecInt8(v) => StrategyValue::Int8(v@),
            StrategyDataTypes::VecInt16(v) => StrategyValue::Int16(v@),
            StrategyDataTypes::VecInt32(v) => StrategyValue::Int32(v@),
            StrategyDataTypes::VecString(v) => StrategyValue::Strings(v.deep_view()),
            StrategyDataTypes::VecChar(v) => StrategyValue::Chars(v@),
        }
    }
}

impl StrategyDataTypes {
    /// Extracts the 32-bit float variant, as bit patterns; `None` when the
    /// tag differs. A wrong tag is the caller's error and is surfaced here,
    /// never by a crash.
    pub fn into_vec_f32_bits(self) -> (r: Option<Vec<u32>>)
        ensures
            match r {
                Some(v) => self@ == (StrategyValue::Float32(v@)),
                None => !(self@ is Float32),
            },
    {
        match self {
            StrategyDataTypes::VecFloat32(v) => Some(v),
            _ => None,
        }
    }

    /// Extracts the 8-bit integer variant; `None` when the tag differs.
    pub fn into_vec_i8(self) -> (r: Option<Vec<i8>>)
        ensures
            match r {
                Some(v) => self@ == (StrategyValue::Int8(v@)),
                None => !(self@ is Int8),
            },
    {
        match self {
            StrategyDataTypes::VecInt8(v) => Some(v),
            _ => None,
        }
    }

    /// Extracts the 16-bit integer variant; `None` when the tag differs.
    pub fn into_vec_i16(self) -> (r: Option<Vec<i16>>)
        ensures
            match r {
                Some(v) => self@ == (StrategyValue::Int16(v@)),
                None => !(self@ is Int16),
            },
    {
        match self {
            StrategyDataTypes::VecInt16(v) => Some(v),
            _ => None,
        }
    }

    /// Extracts the 32-bit integer variant; `None` when the tag differs.
    pub fn into_vec_i32(self) -> (r: Option<Vec<i32>>)
        ensures
            match r {
                Some(v) => self@ == (StrategyValue::Int32(v@)),
                None => !(self@ is Int32),
            },
    {
        match self {
            StrategyDataTypes::VecInt32(v) => Some(v),
            _ => None,
        }
    }

    /// Extracts the string variant; `None` when the tag differs.
    pub fn into_vec_string(self) -> (r: Option<Vec<String>>)
        ensures
            match r {
                Some(v) => self@ == (StrategyValue::Strings(v.deep_view())),
                None => !(self@ is Strings),
            },
    {
        match self {
            StrategyDataTypes::VecString(v) => Some(v),
            _ => None,
        }
    }

    /// Extracts the character variant; `None` when the tag differs.
    pub fn into_vec_char(self) -> (r: Option<Vec<char>>)
        ensures
            match r {
                Some(v) => self@ == (StrategyValue::Chars(v@)),
                None => !(self@ is Chars),
            },
    {
        match self {
            StrategyDataTypes::VecChar(v) => Some(v),
            _ => None,
        }
    }
}

/// Reading the fixed 12-byte frame header of a field buffer.
pub trait Header {
    fn header(&self) -> Result<HeaderLayout, EncodeError>;
}

/// Dispatching a field buffer to its codec's pipeline.
pub trait Strategy {
    fn apply(&self) -> Result<StrategyDataTypes, EncodeError>;
}

} // verus!
