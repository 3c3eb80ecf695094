//! The composite codecs: fixed orderings of byte interpretation and
//! primitive transforms. The orderings are part of the external wire
//! contract and must not be altered.

use vstd::prelude::*;

use crate::binary_decoder::{i32s_be_bytes, i32s_to_be_bytes, i16s_be_bytes, i16s_to_be_bytes,
    interpret_i16s, interpret_i32s, lemma_i32_bytes_round_trip, spec_i16_seq, spec_i32_seq};
use crate::encode::EncodeError;
use crate::encoding::{delta_decode, delta_encode, lemma_delta_round_trip, lemma_rl_encode_even,
    lemma_run_length_round_trip, quant_decode_seq, quant_encode_seq, quant_encode_seq_ok,
    rec_decode_i16, rec_encode, rl_decode, rl_encode, rl_valid, Delta, IntegerEncoding,
    RecursiveIndexing, RunLength};

verus! {

/// Delta & run-length codec: 32-bit integers stored as run-length-encoded
/// deltas.
#[derive(Debug)]
pub struct DeltaRunlength;

/// Integer & run-length codec: 32-bit floats stored as run-length-encoded
/// quantized integers.
#[derive(Debug)]
pub struct IntegerRunLength;

/// Integer & delta & recursive-indexing codec: 32-bit floats stored as
/// 16-bit-packed recursively indexed quantized deltas.
#[derive(Debug)]
pub struct IntegerDeltaRecursive;

/// What `DeltaRunlength::decode` returns on a byte buffer.
pub open spec fn spec_delta_runlength_decode(b: Seq<u8>) -> Result<Seq<i32>, EncodeError> {
    if b.len() % 4 != 0 {
        Err(EncodeError::TruncatedInput)
    } else {
        let ints = spec_i32_seq(b);
        if ints.len() % 2 != 0 {
            Err(EncodeError::OddLengthInput)
        } else if !rl_valid(ints) {
            Err(EncodeError::MalformedEncoding)
        } else {
            Ok(delta_decode(rl_decode(ints)))
        }
    }
}

/// What `DeltaRunlength::encode` returns on an integer sequence.
pub open spec fn spec_delta_runlength_encode(s: Seq<i32>) -> Result<Seq<u8>, EncodeError> {
    if s.len() < 2 {
        Err(EncodeError::InsufficientLength)
    } else {
        Ok(i32s_be_bytes(rl_encode(delta_encode(s))))
    }
}

/// What `IntegerRunLength::decode` returns on a byte buffer.
pub open spec fn spec_integer_run_length_decode(b: Seq<u8>, f: int) -> Result<
    Seq<u32>,
    EncodeError,
> {
    if b.len() % 4 != 0 {
        Err(EncodeError::TruncatedInput)
    } else {
        let ints = spec_i32_seq(b);
        if ints.len() % 2 != 0 {
            Err(EncodeError::OddLengthInput)
        } else if !rl_valid(ints) {
            Err(EncodeError::MalformedEncoding)
        } else if f == 0 {
            Err(EncodeError::InvalidParameter)
        } else {
            Ok(quant_decode_seq(rl_decode(ints), f))
        }
    }
}

/// What `IntegerRunLength::encode` returns on a sequence of binary32 bit
/// patterns.
pub open spec fn spec_integer_run_length_encode(s: Seq<u32>, f: int) -> Result<
    Seq<u8>,
    EncodeError,
> {
    if f == 0 {
        Err(EncodeError::InvalidParameter)
    } else {
        Ok(i32s_be_bytes(rl_encode(quant_encode_seq(s, f))))
    }
}

/// What `IntegerDeltaRecursive::decode` returns on a byte buffer.
pub open spec fn spec_integer_delta_recursive_decode(b: Seq<u8>, f: int) -> Result<
    Seq<u32>,
    EncodeError,
> {
    if b.len() % 2 != 0 {
        Err(EncodeError::TruncatedInput)
    } else if f == 0 {
        Err(EncodeError::InvalidParameter)
    } else {
        Ok(quant_decode_seq(delta_decode(rec_decode_i16(spec_i16_seq(b), 0)), f))
    }
}

/// What `IntegerDeltaRecursive::encode` returns on a sequence of binary32
/// bit patterns.
pub open spec fn spec_integer_delta_recursive_encode(s: Seq<u32>, f: int) -> Result<
    Seq<u8>,
    EncodeError,
> {
    if f == 0 {
        Err(EncodeError::InvalidParameter)
    } else if s.len() < 2 {
        Err(EncodeError::InsufficientLength)
    } else {
        Ok(i16s_be_bytes(rec_encode(delta_encode(quant_encode_seq(s, f)))))
    }
}

impl DeltaRunlength {
    /// Interprets the bytes as big-endian 32-bit integers, run-length
    /// decodes them, then delta decodes the runs.
    pub fn decode(bytes: &[u8]) -> (r: Result<Vec<i32>, EncodeError>)
        ensures
            ({
                let s = spec_delta_runlength_decode(bytes@);
                match r {
                    Ok(v) => s == Ok::<Seq<i32>, EncodeError>(v@),
                    Err(e) => s == Err::<Seq<i32>, EncodeError>(e),
                }
            }),
    {
        let data = interpret_i32s(bytes)?;
        let runs = RunLength::decode(data.as_slice())?;
        Delta::decode(runs.as_slice())
    }

    /// Delta encodes the values, run-length encodes the deltas, then
    /// serializes the pairs as big-endian bytes. The input length must fit a
    /// 32-bit run count.
    pub fn encode(values: &[i32]) -> (r: Result<Vec<u8>, EncodeError>)
        requires
            values@.len() <= i32::MAX as int,
        ensures
            ({
                let s = spec_delta_runlength_encode(values@);
                match r {
                    Ok(v) => s == Ok::<Seq<u8>, EncodeError>(v@),
                    Err(e) => s == Err::<Seq<u8>, EncodeError>(e),
                }
            }),
    {
        let deltas = Delta::encode(values)?;
        let runs = RunLength::encode(deltas.as_slice())?;
        Ok(i32s_to_be_bytes(runs.as_slice()))
    }
}

impl IntegerRunLength {
    /// Interprets the bytes as big-endian 32-bit integers, run-length
    /// decodes them, then divides by the quantization factor into 32-bit
    /// floats (returned as binary32 bit patterns).
    pub fn decode(bytes: &[u8], factor: i32) -> (r: Result<Vec<u32>, EncodeError>)
        ensures
            ({
                let s = spec_integer_run_length_decode(bytes@, factor as int);
                match r {
                    Ok(v) => s == Ok::<Seq<u32>, EncodeError>(v@),
                    Err(e) => s == Err::<Seq<u32>, EncodeError>(e),
                }
            }),
    {
        let data = interpret_i32s(bytes)?;
        let runs = RunLength::decode(data.as_slice())?;
        IntegerEncoding::decode(runs.as_slice(), factor)
    }

    /// Multiplies each float (given as its binary32 bit pattern) by the
    /// factor and truncates, run-length encodes the integers, then
    /// serializes the pairs as big-endian bytes.
    pub fn encode(values: &[u32], factor: i32) -> (r: Result<Vec<u8>, EncodeError>)
        requires
            values@.len() <= i32::MAX as int,
            factor != 0 ==> quant_encode_seq_ok(values@, factor as int),
        ensures
            ({
                let s = spec_integer_run_length_encode(values@, factor as int);
                match r {
                    Ok(v) => s == Ok::<Seq<u8>, EncodeError>(v@),
                    Err(e) => s == Err::<Seq<u8>, EncodeError>(e),
                }
            }),
    {
        let ints = IntegerEncoding::encode(values, factor)?;
        let runs = RunLength::encode(ints.as_slice())?;
        Ok(i32s_to_be_bytes(runs.as_slice()))
    }
}

impl IntegerDeltaRecursive {
    /// Interprets the bytes as big-endian 16-bit integers, folds the
    /// recursive indexing into 32-bit integers, delta decodes them, then
    /// divides by the quantization factor into 32-bit floats (returned as
    /// binary32 bit patterns).
    pub fn decode(bytes: &[u8], factor: i32) -> (r: Result<Vec<u32>, EncodeError>)
        ensures
            ({
                let s = spec_integer_delta_recursive_decode(bytes@, factor as int);
                match r {
                    Ok(v) => s == Ok::<Seq<u32>, EncodeError>(v@),
                    Err(e) => s == Err::<Seq<u32>, EncodeError>(e),
                }
            }),
    {
        let data = interpret_i16s(bytes)?;
        let folded = RecursiveIndexing::decode(data.as_slice())?;
        let absolutes = Delta::decode(folded.as_slice())?;
        IntegerEncoding::decode(absolutes.as_slice(), factor)
    }

    /// Multiplies each float (given as its binary32 bit pattern) by the
    /// factor and truncates, delta encodes the integers, splits them into
    /// 16-bit recursive-indexing chunks, then serializes the chunks as
    /// big-endian bytes.
    pub fn encode(values: &[u32], factor: i32) -> (r: Result<Vec<u8>, EncodeError>)
        requires
            factor != 0 ==> quant_encode_seq_ok(values@, factor as int),
        ensures
            ({
                let s = spec_integer_delta_recursive_encode(values@, factor as int);
                match r {
                    Ok(v) => s == Ok::<Seq<u8>, EncodeError>(v@),
                    Err(e) => s == Err::<Seq<u8>, EncodeError>(e),
                }
            }),
    {
        let ints = IntegerEncoding::encode(values, factor)?;
        let deltas = Delta::encode(ints.as_slice())?;
        let chunks = RecursiveIndexing::encode(deltas.as_slice())?;
        Ok(i16s_to_be_bytes(chunks.as_slice()))
    }
}

/// Decoding inverts encoding for the delta & run-length codec: a sequence of
/// at least two elements, of a length that fits a 32-bit count, encodes to a
/// byte buffer that decodes back to exactly the original sequence.
pub proof fn lemma_delta_runlength_round_trip(s: Seq<i32>)
    requires
        2 <= s.len() <= i32::MAX as int,
    ensures
        spec_delta_runlength_encode(s) matches Ok(bytes) && spec_delta_runlength_decode(bytes)
            == Ok::<Seq<i32>, EncodeError>(s),
{
    let d = delta_encode(s);
    let e = rl_encode(d);
    let bytes = i32s_be_bytes(e);
    lemma_i32_bytes_round_trip(e);
    lemma_run_length_round_trip(d);
    lemma_delta_round_trip(s);
    lemma_rl_encode_even(d);
    assert(bytes.len() == 4 * e.len());
    assert(bytes.len() % 4 == 0) by {
        vstd::arithmetic::div_mod::lemma_mod_multiples_basic(e.len() as int, 4);
        assert(4 * e.len() == e.len() * 4) by (nonlinear_arith);
    }
}

} // verus!
