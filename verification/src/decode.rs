//! The frame header parser and the strategy dispatcher: reads the fixed
//! 12-byte header of a field buffer and chains the codec pipeline that the
//! header's codec id selects.

use vstd::prelude::*;
use vstd::slice::slice_subrange;

use crate::binary_decoder::{be_u32_at, chars_from_i32s, i16s_as_i32s, i32_chars_valid,
    interpret_chars, interpret_f32_bits, interpret_i16s, interpret_i32s, interpret_i8s,
    interpret_strings, spec_f32_bits_seq, spec_i16_seq, spec_i32_char_seq, spec_i32_seq,
    spec_i8_seq, spec_string_seq, string_chunks_valid, widen_i16s, widen_i8s};
use crate::codec::{spec_delta_runlength_decode, spec_integer_delta_recursive_decode,
    spec_integer_run_length_decode, DeltaRunlength, IntegerDeltaRecursive, IntegerRunLength};
use crate::encode::{EncodeError, Header, HeaderLayout, Strategy, StrategyDataTypes,
    StrategyValue};
use crate::encoding::{quant_decode_seq, rec_decode_i16, rec_decode_i8, rl_decode, rl_valid,
    IntegerEncoding, RecursiveIndexing, RunLength};

verus! {

/// A decoder over one field buffer: the 12-byte header and its payload.
#[derive(Debug)]
pub struct Decoder<'a> {
    /// The whole field buffer, header included.
    pub reader: &'a [u8],
}

/// What parsing the frame header of a buffer yields.
pub open spec fn spec_header(b: Seq<u8>) -> Result<HeaderLayout, EncodeError> {
    if b.len() < 12 {
        Err(EncodeError::HeaderTooShort(b.len() as usize))
    } else {
        Ok(
            HeaderLayout {
                codec: be_u32_at(b, 0) as i32,
                length: be_u32_at(b, 1) as i32,
                parameter: be_u32_at(b, 2) as i32,
            },
        )
    }
}

/// The payload of a field buffer: everything after the 12 header bytes.
pub open spec fn spec_field(b: Seq<u8>) -> Seq<u8> {
    if b.len() < 12 {
        Seq::empty()
    } else {
        b.skip(12)
    }
}

/// What dispatching a whole field buffer yields: the typed array of the
/// codec that the header selects, or the error of the first stage that
/// fails. The header is always parsed first; an unknown codec id fails
/// before any byte of the payload is interpreted.
pub open spec fn spec_apply(b: Seq<u8>) -> Result<StrategyValue, EncodeError> {
    if b.len() < 12 {
        Err(EncodeError::HeaderTooShort(b.len() as usize))
    } else {
        let codec = be_u32_at(b, 0) as i32;
        let param = be_u32_at(b, 2) as i32;
        let p = b.skip(12);
        if codec == 1 {
            if p.len() % 4 != 0 {
                Err(EncodeError::TruncatedInput)
            } else {
                Ok(StrategyValue::Float32(spec_f32_bits_seq(p)))
            }
        } else if codec == 2 {
            Ok(StrategyValue::Int8(spec_i8_seq(p)))
        } else if codec == 3 {
            if p.len() % 2 != 0 {
                Err(EncodeError::TruncatedInput)
            } else {
                Ok(StrategyValue::Int16(spec_i16_seq(p)))
            }
        } else if codec == 4 {
            if p.len() % 4 != 0 {
                Err(EncodeError::TruncatedInput)
            } else {
                Ok(StrategyValue::Int32(spec_i32_seq(p)))
            }
        } else if codec == 5 {
            if param <= 0 {
                Err(EncodeError::InvalidParameter)
            } else if (p.len() as int) % (param as int) != 0 {
                Err(EncodeError::TruncatedInput)
            } else if !string_chunks_valid(p, param as int) {
                Err(EncodeError::MalformedEncoding)
            } else {
                Ok(StrategyValue::Strings(spec_string_seq(p, param as int)))
            }
        } else if codec == 6 {
            if p.len() % 4 != 0 {
                Err(EncodeError::TruncatedInput)
            } else {
                let ints = spec_i32_seq(p);
                if ints.len() % 2 != 0 {
                    Err(EncodeError::OddLengthInput)
                } else if !rl_valid(ints) {
                    Err(EncodeError::MalformedEncoding)
                } else if !i32_chars_valid(rl_decode(ints)) {
                    Err(EncodeError::MalformedEncoding)
                } else {
                    Ok(StrategyValue::Chars(spec_i32_char_seq(rl_decode(ints))))
                }
            }
        } else if codec == 7 {
            if p.len() % 4 != 0 {
                Err(EncodeError::TruncatedInput)
            } else {
                let ints = spec_i32_seq(p);
                if ints.len() % 2 != 0 {
                    Err(EncodeError::OddLengthInput)
                } else if !rl_valid(ints) {
                    Err(EncodeError::MalformedEncoding)
                } else {
                    Ok(StrategyValue::Int32(rl_decode(ints)))
                }
            }
        } else if codec == 8 {
            match spec_delta_runlength_decode(p) {
                Ok(v) => Ok(StrategyValue::Int32(v)),
                Err(e) => Err(e),
            }
        } else if codec == 9 {
            match spec_integer_run_length_decode(p, param as int) {
                Ok(v) => Ok(StrategyValue::Float32(v)),
                Err(e) => Err(e),
            }
        } else if codec == 10 {
            match spec_integer_delta_recursive_decode(p, param as int) {
                Ok(v) => Ok(StrategyValue::Float32(v)),
                Err(e) => Err(e),
            }
        } else if codec == 11 {
            if p.len() % 2 != 0 {
                Err(EncodeError::TruncatedInput)
            } else if param == 0 {
                Err(EncodeError::InvalidParameter)
            } else {
                Ok(
                    StrategyValue::Float32(
                        quant_decode_seq(i16s_as_i32s(spec_i16_seq(p)), param as int),
                    ),
                )
            }
        } else if codec == 12 {
            if p.len() % 2 != 0 {
                Err(EncodeError::TruncatedInput)
            } else if param == 0 {
                Err(EncodeError::InvalidParameter)
            } else {
                Ok(
                    StrategyValue::Float32(
                        quant_decode_seq(rec_decode_i16(spec_i16_seq(p), 0), param as int),
                    ),
                )
            }
        } else if codec == 13 {
            if param == 0 {
                Err(EncodeError::InvalidParameter)
            } else {
                Ok(
                    StrategyValue::Float32(
                        quant_decode_seq(rec_decode_i8(spec_i8_seq(p), 0), param as int),
                    ),
                )
            }
        } else if codec == 14 {
            if p.len() % 2 != 0 {
                Err(EncodeError::TruncatedInput)
            } else {
                Ok(StrategyValue::Int32(rec_decode_i16(spec_i16_seq(p), 0)))
            }
        } else if codec == 15 {
            Ok(StrategyValue::Int32(rec_decode_i8(spec_i8_seq(p), 0)))
        } else {
            Err(EncodeError::UnknownCodec(codec))
        }
    }
}

impl<'a> Decoder<'a> {
    /// A decoder over the given field buffer.
    pub fn new(reader: &'a [u8]) -> (r: Decoder<'a>)
        ensures
            r.reader@ == reader@,
    {
        Decoder { reader }
    }

    /// The payload: every byte after the 12-byte header (empty when the
    /// buffer is no longer than the header).
    pub fn field(&self) -> (r: Result<Vec<u8>, EncodeError>)
        ensures
            r matches Ok(v) && v@ == spec_field(self.reader@),
    {
        let len = self.reader.len();
        if len < 12 {
            let empty: Vec<u8> = Vec::new();
            assert(empty@ =~= spec_field(self.reader@));
            return Ok(empty);
        }
        let tail = slice_subrange(self.reader, 12, len);
        let mut out: Vec<u8> = Vec::new();
        let n = tail.len();
        let mut i: usize = 0;
        while i < n
            invariant
                n == tail@.len(),
                i <= n,
                out@ == tail@.take(i as int),
            decreases n - i,
        {
            out.push(tail[i]);
            assert(out@ =~= tail@.take(i as int + 1));
            i = i + 1;
        }
        assert(out@ =~= tail@);
        assert(tail@ =~= spec_field(self.reader@));
        Ok(out)
    }

    /// Parses the frame header: three big-endian 32-bit integers read from
    /// the front of the buffer. Fails with `HeaderTooShort`, naming the
    /// actual byte length, when fewer than 12 bytes are available; nothing
    /// is consumed in that case.
    pub fn header(&self) -> (r: Result<HeaderLayout, EncodeError>)
        ensures
            ({
                let s = spec_header(self.reader@);
                match r {
                    Ok(h) => s == Ok::<HeaderLayout, EncodeError>(h),
                    Err(e) => s == Err::<HeaderLayout, EncodeError>(e),
                }
            }),
    {
        let len = self.reader.len();
        if len < 12 {
            return Err(EncodeError::HeaderTooShort(len));
        }
        let codec = read_header_word(self.reader, 0);
        let length = read_header_word(self.reader, 1);
        let parameter = read_header_word(self.reader, 2);
        Ok(HeaderLayout { codec, length, parameter })
    }

    /// Dispatches the buffer to the pipeline that its codec id selects.
    /// The header is parsed first; on a header failure or an unknown codec
    /// id no payload byte is interpreted.
    pub fn apply(&self) -> (r: Result<StrategyDataTypes, EncodeError>)
        ensures
            ({
                let s = spec_apply(self.reader@);
                match r {
                    Ok(v) => s == Ok::<StrategyValue, EncodeError>(v@),
                    Err(e) => s == Err::<StrategyValue, EncodeError>(e),
                }
            }),
    {
        let header = self.header()?;
        let codec = header.codec;
        if codec < 1 || codec > 15 {
            return Err(EncodeError::UnknownCodec(codec));
        }
        let field = self.field()?;
        let payload = field.as_slice();
        assert(payload@ == self.reader@.skip(12));
        if codec == 1 {
            let decoded = interpret_f32_bits(payload)?;
            Ok(StrategyDataTypes::VecFloat32(decoded))
        } else if codec == 2 {
            let decoded = interpret_i8s(payload)?;
            Ok(StrategyDataTypes::VecInt8(decoded))
        } else if codec == 3 {
            let decoded = interpret_i16s(payload)?;
            Ok(StrategyDataTypes::VecInt16(decoded))
        } else if codec == 4 {
            let decoded = interpret_i32s(payload)?;
            Ok(StrategyDataTypes::VecInt32(decoded))
        } else if codec == 5 {
            if header.parameter <= 0 {
                return Err(EncodeError::InvalidParameter);
            }
            let decoded = interpret_strings(payload, header.parameter as usize)?;
            Ok(StrategyDataTypes::VecString(decoded))
        } else if codec == 6 {
            let data = interpret_i32s(payload)?;
            let runs = RunLength::decode(data.as_slice())?;
            let decoded = chars_from_i32s(runs.as_slice())?;
            Ok(StrategyDataTypes::VecChar(decoded))
        } else if codec == 7 {
            let data = interpret_i32s(payload)?;
            let runs = RunLength::decode(data.as_slice())?;
            Ok(StrategyDataTypes::VecInt32(runs))
        } else if codec == 8 {
            let decoded = DeltaRunlength::decode(payload)?;
            Ok(StrategyDataTypes::VecInt32(decoded))
        } else if codec == 9 {
            let decoded = IntegerRunLength::decode(payload, header.parameter)?;
            Ok(StrategyDataTypes::VecFloat32(decoded))
        } else if codec == 10 {
            let decoded = IntegerDeltaRecursive::decode(payload, header.parameter)?;
            Ok(StrategyDataTypes::VecFloat32(decoded))
        } else if codec == 11 {
            let data = interpret_i16s(payload)?;
            let wide = widen_i16s(data.as_slice());
            let decoded = IntegerEncoding::decode(wide.as_slice(), header.parameter)?;
            Ok(StrategyDataTypes::VecFloat32(decoded))
        } else if codec == 12 {
            let data = interpret_i16s(payload)?;
            let folded = RecursiveIndexing::decode(data.as_slice())?;
            let decoded = IntegerEncoding::decode(folded.as_slice(), header.parameter)?;
            Ok(StrategyDataTypes::VecFloat32(decoded))
        } else if codec == 13 {
            let data = interpret_i8s(payload)?;
            let folded = RecursiveIndexing::decode_i8(data.as_slice())?;
            let decoded = IntegerEncoding::decode(folded.as_slice(), header.parameter)?;
            Ok(StrategyDataTypes::VecFloat32(decoded))
        } else if codec == 14 {
            let data = interpret_i16s(payload)?;
            let folded = RecursiveIndexing::decode(data.as_slice())?;
            Ok(StrategyDataTypes::VecInt32(folded))
        } else {
            let data = interpret_i8s(payload)?;
            let folded = RecursiveIndexing::decode_i8(data.as_slice())?;
            Ok(StrategyDataTypes::VecInt32(folded))
        }
    }
}

fn read_header_word(b: &[u8], i: usize) -> (r: i32)
    requires
        i < 3,
        b@.len() >= 12,
    ensures
        r == be_u32_at(b@, i as int) as i32,
{
    let _len: usize = b.len();
    let j = 4 * i;
    let w = (b[j] as u32) * 0x100_0000 + (b[j + 1] as u32) * 0x1_0000 + (b[j + 2] as u32) * 0x100
        + (b[j + 3] as u32);
    #[verifier::truncate] (w as i32)
}

impl<'a> Header for Decoder<'a> {
    fn header(&self) -> Result<HeaderLayout, EncodeError> {
        Decoder::header(self)
    }
}

impl<'a> Strategy for Decoder<'a> {
    fn apply(&self) -> Result<StrategyDataTypes, EncodeError> {
        Decoder::apply(self)
    }
}

/// Decodes one whole field buffer: parses the header and runs the codec
/// pipeline it selects. The single entry point of the codec engine.
pub fn decode_field(buffer: &[u8]) -> (r: Result<StrategyDataTypes, EncodeError>)
    ensures
        ({
            let s = spec_apply(buffer@);
            match r {
                Ok(v) => s == Ok::<StrategyValue, EncodeError>(v@),
                Err(e) => s == Err::<StrategyValue, EncodeError>(e),
            }
        }),
{
    let decoder = Decoder::new(buffer);
    decoder.apply()
}

} // verus!
