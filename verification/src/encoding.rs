//! The four primitive transforms: run-length, delta, integer quantization,
//! and recursive indexing. Each is a pure encode/decode pair over typed
//! arrays.
//!
//! Delta decoding and recursive-indexing accumulation use wrapping 32-bit
//! addition, so every decode is total over well-formed input and the
//! encode/decode round trips are exact even at the numeric boundaries.

use vstd::prelude::*;

use crate::binary32::{quant_decode_bits, quant_encode_fits, quant_encode_one, spec_quant_decode,
    spec_quant_encode, zero_or_normal};
use crate::encode::EncodeError;

verus! {

/// Run-length encoding: stretches of equal values stored as (value, count)
/// pairs.
#[derive(Debug)]
pub struct RunLength;

/// Delta encoding: successive differences stored instead of absolute values.
#[derive(Debug)]
pub struct Delta;

/// Integer encoding: lossy float/integer conversion through a
/// multiplicative quantization factor.
#[derive(Debug)]
pub struct IntegerEncoding;

/// Recursive indexing: lossless encoding of 32-bit integers into a narrower
/// width using the narrow type's extreme values as continuation sentinels.
#[derive(Debug)]
pub struct RecursiveIndexing;

/// `n` repetitions of `v` (none when the count is negative).
pub open spec fn seq_repeat(v: i32, n: int) -> Seq<i32> {
    Seq::new(if n < 0 { 0 } else { n as nat }, |i: int| v)
}

/// Whether a run-length payload is well formed: pairable and with no
/// negative repetition count.
pub open spec fn rl_valid(s: Seq<i32>) -> bool {
    &&& s.len() % 2 == 0
    &&& forall|i: int| 0 <= i && 2 * i + 1 < s.len() ==> #[trigger] s[2 * i + 1] >= 0
}

/// Run-length decoding: each (value, count) pair expands to `count`
/// repetitions of `value`, in order.
pub open spec fn rl_decode(s: Seq<i32>) -> Seq<i32>
    decreases s.len(),
{
    if s.len() < 2 {
        Seq::empty()
    } else {
        seq_repeat(s[0], s[1] as int) + rl_decode(s.skip(2))
    }
}

/// The length of the maximal prefix of `s` equal to `v`.
pub open spec fn run_prefix_len(s: Seq<i32>, v: i32) -> nat
    decreases s.len(),
{
    if s.len() > 0 && s[0] == v {
        1 + run_prefix_len(s.skip(1), v)
    } else {
        0
    }
}

/// Run-length encoding: maximal runs of adjacent equal values become
/// (value, run length) pairs, in original order.
pub open spec fn rl_encode(s: Seq<i32>) -> Seq<i32>
    decreases s.len(),
    via rl_encode_decreases
{
    if s.len() == 0 {
        Seq::empty()
    } else {
        let run = 1 + run_prefix_len(s.skip(1), s[0]);
        seq![s[0], run as i32] + rl_encode(s.skip(run as int))
    }
}

proof fn lemma_run_prefix_len_le(s: Seq<i32>, v: i32)
    ensures
        run_prefix_len(s, v) <= s.len(),
    decreases s.len(),
{
    if s.len() > 0 && s[0] == v {
        lemma_run_prefix_len_le(s.skip(1), v);
    }
}

#[via_fn]
proof fn rl_encode_decreases(s: Seq<i32>) {
    if s.len() > 0 {
        lemma_run_prefix_len_le(s.skip(1), s[0]);
    }
}

/// 32-bit two's-complement wrapping addition.
pub open spec fn wadd(a: i32, b: i32) -> i32 {
    vstd::wrapping::i32_specs::wrapping_add(a, b)
}

/// 32-bit two's-complement wrapping subtraction.
pub open spec fn wsub(a: i32, b: i32) -> i32 {
    vstd::wrapping::i32_specs::wrapping_sub(a, b)
}

/// The wrapping prefix sum of `s` up to and including index `i`.
pub open spec fn wprefix_sum(s: Seq<i32>, i: int) -> i32
    decreases i,
{
    if i <= 0 {
        s[0]
    } else {
        wadd(wprefix_sum(s, i - 1), s[i])
    }
}

/// Delta decoding: the first element is absolute, every later element adds
/// its delta to the previous decoded value.
pub open spec fn delta_decode(s: Seq<i32>) -> Seq<i32> {
    Seq::new(s.len(), |i: int| wprefix_sum(s, i))
}

/// Delta encoding: the first element is kept, every later element becomes
/// the difference from its predecessor.
pub open spec fn delta_encode(s: Seq<i32>) -> Seq<i32> {
    Seq::new(s.len(), |i: int| if i == 0 { s[0] } else { wsub(s[i], s[i - 1]) })
}

/// Recursive-indexing decoding over 16-bit input: accumulate every item;
/// emit and reset only on items other than the 16-bit extremes.
pub open spec fn rec_decode_i16(s: Seq<i16>, acc: i32) -> Seq<i32>
    decreases s.len(),
{
    if s.len() == 0 {
        Seq::empty()
    } else {
        let a = wadd(acc, s[0] as i32);
        if s[0] == i16::MAX || s[0] == i16::MIN {
            rec_decode_i16(s.skip(1), a)
        } else {
            seq![a] + rec_decode_i16(s.skip(1), 0)
        }
    }
}

/// Recursive-indexing decoding over 8-bit input, with the 8-bit extremes as
/// sentinels.
pub open spec fn rec_decode_i8(s: Seq<i8>, acc: i32) -> Seq<i32>
    decreases s.len(),
{
    if s.len() == 0 {
        Seq::empty()
    } else {
        let a = wadd(acc, s[0] as i32);
        if s[0] == i8::MAX || s[0] == i8::MIN {
            rec_decode_i8(s.skip(1), a)
        } else {
            seq![a] + rec_decode_i8(s.skip(1), 0)
        }
    }
}

/// The 16-bit chunks that recursive indexing emits for one 32-bit value:
/// sentinels while the remainder is outside the open 16-bit interval, then
/// the remainder itself.
pub open spec fn rec_encode_one(v: int) -> Seq<i16>
    decreases (if v >= 0 { v } else { -v }),
{
    if v >= i16::MAX as int {
        seq![i16::MAX] + rec_encode_one(v - i16::MAX as int)
    } else if v <= i16::MIN as int {
        seq![i16::MIN] + rec_encode_one(v - i16::MIN as int)
    } else {
        seq![v as i16]
    }
}

/// The quantization decode of a whole sequence: each element's binary32
/// quotient bit pattern.
pub open spec fn quant_decode_seq(s: Seq<i32>, f: int) -> Seq<u32> {
    Seq::new(s.len(), |i: int| spec_quant_decode(s[i] as int, f))
}

/// The quantization encode of a whole sequence of binary32 bit patterns.
pub open spec fn quant_encode_seq(s: Seq<u32>, f: int) -> Seq<i32> {
    Seq::new(s.len(), |i: int| spec_quant_encode(s[i], f))
}

/// Whether every element of the sequence may be quantization-encoded: zero
/// or normal, with a scaled truncation that fits a 32-bit integer.
pub open spec fn quant_encode_seq_ok(s: Seq<u32>, f: int) -> bool {
    forall|i: int|
        0 <= i < s.len() ==> zero_or_normal(#[trigger] s[i]) && quant_encode_fits(s[i], f)
}

/// Recursive-indexing encoding of a 32-bit sequence into 16-bit chunks.
pub open spec fn rec_encode(s: Seq<i32>) -> Seq<i16>
    decreases s.len(),
{
    if s.len() == 0 {
        Seq::empty()
    } else {
        rec_encode_one(s[0] as int) + rec_encode(s.skip(1))
    }
}

proof fn lemma_rl_decode_append(a: Seq<i32>, b: Seq<i32>)
    requires
        a.len() % 2 == 0,
    ensures
        rl_decode(a + b) == rl_decode(a) + rl_decode(b),
    decreases a.len(),
{
    if a.len() == 0 {
        assert(a + b =~= b);
        assert(rl_decode(a) + rl_decode(b) =~= rl_decode(b));
    } else {
        lemma_rl_decode_append(a.skip(2), b);
        assert((a + b).skip(2) =~= a.skip(2) + b);
        assert(rl_decode(a + b) =~= rl_decode(a) + rl_decode(b));
    }
}

impl RunLength {
    /// Expands (value, count) pairs into runs. Fails with `OddLengthInput`
    /// when the input cannot be paired, and with `MalformedEncoding` on a
    /// negative count.
    pub fn decode(values: &[i32]) -> (r: Result<Vec<i32>, EncodeError>)
        ensures
            match r {
                Ok(v) => rl_valid(values@) && v@ == rl_decode(values@),
                Err(e) => {
                    if values@.len() % 2 != 0 {
                        e == EncodeError::OddLengthInput
                    } else {
                        !rl_valid(values@) && e == EncodeError::MalformedEncoding
                    }
                },
            },
    {
        if values.len() % 2 != 0 {
            return Err(EncodeError::OddLengthInput);
        }
        let n = values.len() / 2;
        let mut out: Vec<i32> = Vec::new();
        let mut i: usize = 0;
        assert(values@.take(0) =~= Seq::<i32>::empty());
        while i < n
            invariant
                values@.len() % 2 == 0,
                n == values@.len() / 2,
                i <= n,
                forall|j: int| 0 <= j && j < i ==> #[trigger] values@[2 * j + 1] >= 0,
                out@ == rl_decode(values@.take(2 * i as int)),
            decreases n - i,
        {
            proof {
                vstd::arithmetic::div_mod::lemma_fundamental_div_mod(values@.len() as int, 2);
                assert(values@.len() == 2 * n);
                assert(2 * (i as int) + 1 < values@.len());
            }
            let _total: usize = values.len();
            let value = values[2 * i];
            let count = values[2 * i + 1];
            if count < 0 {
                return Err(EncodeError::MalformedEncoding);
            }
            let mut k: usize = 0;
            let ghost prev = out@;
            while k < count as usize
                invariant
                    0 <= count,
                    k <= count as usize,
                    out@ == prev + seq_repeat(value, k as int),
                decreases count as usize - k,
            {
                out.push(value);
                assert(out@ =~= prev + seq_repeat(value, k as int + 1));
                k = k + 1;
            }
            proof {
                let t = values@.take(2 * i as int);
                let pair = seq![values@[2 * i as int], values@[2 * i as int + 1]];
                lemma_rl_decode_append(t, pair);
                assert(t + pair =~= values@.take(2 * (i as int + 1)));
                assert(pair.skip(2) =~= Seq::<i32>::empty());
                assert(rl_decode(pair) == seq_repeat(pair[0], pair[1] as int) + rl_decode(
                    pair.skip(2),
                ));
                assert(rl_decode(pair) =~= seq_repeat(value, count as int));
                assert(out@ =~= rl_decode(values@.take(2 * (i as int + 1))));
            }
            i = i + 1;
        }
        proof {
            assert(values@.take(2 * n as int) =~= values@);
            assert(forall|j: int|
                0 <= j && 2 * j + 1 < values@.len() ==> 0 <= j && j < n && #[trigger] values@[2 * j
                    + 1] >= 0);
        }
        Ok(out)
    }

    /// Groups maximal runs of adjacent equal values into (value, run length)
    /// pairs; non-adjacent equal runs are never merged. The input length must
    /// fit a 32-bit count so that no run length overflows the pair format.
    pub fn encode(values: &[i32]) -> (r: Result<Vec<i32>, EncodeError>)
        requires
            values@.len() <= i32::MAX as int,
        ensures
            r matches Ok(v) && v@ == rl_encode(values@),
    {
        let n = values.len();
        let mut out: Vec<i32> = Vec::new();
        let mut p: usize = 0;
        assert(values@.skip(0) =~= values@);
        while p < n
            invariant
                n == values@.len(),
                n <= i32::MAX as usize,
                p <= n,
                out@ + rl_encode(values@.skip(p as int)) == rl_encode(values@),
            decreases n - p,
        {
            let value = values[p];
            let mut j: usize = p + 1;
            while j < n && values[j] == value
                invariant
                    n == values@.len(),
                    p < j <= n,
                    forall|k: int| p <= k < j ==> values@[k] == value,
                decreases n - j,
            {
                j = j + 1;
            }
            proof {
                lemma_run_prefix_equal(values@.skip(p as int), value, (j - p) as nat);
                assert(values@.skip(p as int).skip((j - p) as int) =~= values@.skip(j as int));
            }
            out.push(value);
            out.push((j - p) as i32);
            proof {
                let rest = values@.skip(p as int);
                assert(rl_encode(rest) == seq![value, (j - p) as i32] + rl_encode(
                    values@.skip(j as int),
                ));
                assert(out@ + rl_encode(values@.skip(j as int)) =~= rl_encode(values@));
            }
            p = j;
        }
        proof {
            assert(rl_encode(values@.skip(n as int)) =~= Seq::<i32>::empty());
            assert(out@ =~= rl_encode(values@));
        }
        Ok(out)
    }
}

proof fn lemma_run_prefix_equal(s: Seq<i32>, v: i32, n: nat)
    requires
        n >= 1,
        n <= s.len(),
        s[0] == v,
        forall|k: int| 0 <= k < n ==> s[k] == v,
        n < s.len() ==> s[n as int] != v,
    ensures
        1 + run_prefix_len(s.skip(1), v) == n,
    decreases n,
{
    if n == 1 {
        if s.len() > 1 {
            assert(s.skip(1)[0] == s[1]);
        }
    } else {
        let t = s.skip(1);
        assert(forall|k: int| 0 <= k < n - 1 ==> t[k] == s[k + 1]);
        lemma_run_prefix_equal(t, v, (n - 1) as nat);
    }
}

impl Delta {
    /// Recovers absolute values from deltas: the first element is kept, each
    /// later output adds its delta to the previous output, wrapping at the
    /// 32-bit boundary. Total: an empty input decodes to an empty output.
    pub fn decode(values: &[i32]) -> (r: Result<Vec<i32>, EncodeError>)
        ensures
            r matches Ok(v) && v@ == delta_decode(values@),
    {
        let n = values.len();
        let mut out: Vec<i32> = Vec::new();
        if n == 0 {
            assert(out@ =~= delta_decode(values@));
            return Ok(out);
        }
        out.push(values[0]);
        let mut i: usize = 1;
        while i < n
            invariant
                n == values@.len(),
                1 <= i <= n,
                out@.len() == i,
                forall|j: int| 0 <= j < i ==> out@[j] == wprefix_sum(values@, j),
            decreases n - i,
        {
            let prev = out[i - 1];
            out.push(prev.wrapping_add(values[i]));
            i = i + 1;
        }
        assert(out@ =~= delta_decode(values@));
        Ok(out)
    }

    /// Stores differences: the first element is kept, each later element
    /// becomes its difference from the predecessor, wrapping at the 32-bit
    /// boundary. Fails with `InsufficientLength` on fewer than two elements.
    pub fn encode(values: &[i32]) -> (r: Result<Vec<i32>, EncodeError>)
        ensures
            match r {
                Ok(v) => values@.len() >= 2 && v@ == delta_encode(values@),
                Err(e) => values@.len() < 2 && e == EncodeError::InsufficientLength,
            },
    {
        let n = values.len();
        if n <= 1 {
            return Err(EncodeError::InsufficientLength);
        }
        let mut out: Vec<i32> = Vec::new();
        out.push(values[0]);
        let mut i: usize = 1;
        while i < n
            invariant
                n == values@.len(),
                1 <= i <= n,
                out@.len() == i,
                out@[0] == values@[0],
                forall|j: int| 1 <= j < i ==> out@[j] == wsub(values@[j], values@[j - 1]),
            decreases n - i,
        {
            out.push(values[i].wrapping_sub(values[i - 1]));
            i = i + 1;
        }
        assert(out@ =~= delta_encode(values@));
        Ok(out)
    }
}

impl IntegerEncoding {
    /// Divides each integer by the quantization factor, producing 32-bit
    /// floats as their binary32 bit patterns (round to nearest, ties to
    /// even). Fails with `InvalidParameter` when the factor is zero.
    pub fn decode(values: &[i32], factor: i32) -> (r: Result<Vec<u32>, EncodeError>)
        ensures
            match r {
                Ok(v) => factor != 0 && v@ == quant_decode_seq(values@, factor as int),
                Err(e) => factor == 0 && e == EncodeError::InvalidParameter,
            },
    {
        if factor == 0 {
            return Err(EncodeError::InvalidParameter);
        }
        let n = values.len();
        let mut out: Vec<u32> = Vec::new();
        let mut i: usize = 0;
        while i < n
            invariant
                factor != 0,
                n == values@.len(),
                i <= n,
                out@.len() == i,
                forall|j: int|
                    0 <= j < i ==> out@[j] == spec_quant_decode(
                        #[trigger] values@[j] as int,
                        factor as int,
                    ),
            decreases n - i,
        {
            out.push(quant_decode_bits(values[i], factor));
            i = i + 1;
        }
        assert(out@ =~= quant_decode_seq(values@, factor as int));
        Ok(out)
    }

    /// Multiplies each 32-bit float (given as its binary32 bit pattern) by
    /// the factor and truncates toward zero. Fails with `InvalidParameter`
    /// when the factor is zero. Every input must be zero or a normal float
    /// whose scaled truncation fits a 32-bit integer, as the wire format
    /// requires.
    pub fn encode(values: &[u32], factor: i32) -> (r: Result<Vec<i32>, EncodeError>)
        requires
            factor != 0 ==> quant_encode_seq_ok(values@, factor as int),
        ensures
            match r {
                Ok(v) => factor != 0 && v@ == quant_encode_seq(values@, factor as int),
                Err(e) => factor == 0 && e == EncodeError::InvalidParameter,
            },
    {
        if factor == 0 {
            return Err(EncodeError::InvalidParameter);
        }
        let n = values.len();
        let mut out: Vec<i32> = Vec::new();
        let mut i: usize = 0;
        while i < n
            invariant
                factor != 0,
                n == values@.len(),
                i <= n,
                out@.len() == i,
                quant_encode_seq_ok(values@, factor as int),
                forall|j: int|
                    0 <= j < i ==> out@[j] == spec_quant_encode(
                        #[trigger] values@[j],
                        factor as int,
                    ),
            decreases n - i,
        {
            out.push(quant_encode_one(values[i], factor));
            i = i + 1;
        }
        assert(out@ =~= quant_encode_seq(values@, factor as int));
        Ok(out)
    }
}

impl RecursiveIndexing {
    /// Folds 16-bit chunks back into 32-bit values: the 16-bit extremes
    /// accumulate and continue, any other value accumulates, emits, and
    /// resets. Accumulation wraps at the 32-bit boundary, so decoding is
    /// total.
    pub fn decode(values: &[i16]) -> (r: Result<Vec<i32>, EncodeError>)
        ensures
            r matches Ok(v) && v@ == rec_decode_i16(values@, 0),
    {
        let n = values.len();
        let mut out: Vec<i32> = Vec::new();
        let mut acc: i32 = 0;
        let mut i: usize = 0;
        assert(values@.skip(0) =~= values@);
        while i < n
            invariant
                n == values@.len(),
                i <= n,
                out@ + rec_decode_i16(values@.skip(i as int), acc) == rec_decode_i16(values@, 0),
            decreases n - i,
        {
            let item = values[i];
            proof {
                assert(values@.skip(i as int).skip(1) =~= values@.skip(i as int + 1));
            }
            acc = acc.wrapping_add(item as i32);
            if item == i16::MAX || item == i16::MIN {
                assert(out@ + rec_decode_i16(values@.skip(i as int + 1), acc) =~= rec_decode_i16(
                    values@,
                    0,
                ));
            } else {
                out.push(acc);
                acc = 0;
                assert(out@ + rec_decode_i16(values@.skip(i as int + 1), 0) =~= rec_decode_i16(
                    values@,
                    0,
                ));
            }
            i = i + 1;
        }
        proof {
            assert(values@.skip(n as int) =~= Seq::<i16>::empty());
            assert(out@ =~= rec_decode_i16(values@, 0));
        }
        Ok(out)
    }

    /// Folds 8-bit chunks back into 32-bit values, with the 8-bit extremes
    /// as the continuation sentinels.
    pub fn decode_i8(values: &[i8]) -> (r: Result<Vec<i32>, EncodeError>)
        ensures
            r matches Ok(v) && v@ == rec_decode_i8(values@, 0),
    {
        let n = values.len();
        let mut out: Vec<i32> = Vec::new();
        let mut acc: i32 = 0;
        let mut i: usize = 0;
        assert(values@.skip(0) =~= values@);
        while i < n
            invariant
                n == values@.len(),
                i <= n,
                out@ + rec_decode_i8(values@.skip(i as int), acc) == rec_decode_i8(values@, 0),
            decreases n - i,
        {
            let item = values[i];
            proof {
                assert(values@.skip(i as int).skip(1) =~= values@.skip(i as int + 1));
            }
            acc = acc.wrapping_add(item as i32);
            if item == i8::MAX || item == i8::MIN {
                assert(out@ + rec_decode_i8(values@.skip(i as int + 1), acc) =~= rec_decode_i8(
                    values@,
                    0,
                ));
            } else {
                out.push(acc);
                acc = 0;
                assert(out@ + rec_decode_i8(values@.skip(i as int + 1), 0) =~= rec_decode_i8(
                    values@,
                    0,
                ));
            }
            i = i + 1;
        }
        proof {
            assert(values@.skip(n as int) =~= Seq::<i8>::empty());
            assert(out@ =~= rec_decode_i8(values@, 0));
        }
        Ok(out)
    }

    /// Splits each 32-bit value into 16-bit chunks: emit the 16-bit maximum
    /// (or minimum) while the remainder lies outside the open 16-bit
    /// interval, then emit the remainder.
    pub fn encode(values: &[i32]) -> (r: Result<Vec<i16>, EncodeError>)
        ensures
            r matches Ok(v) && v@ == rec_encode(values@),
    {
        let n = values.len();
        let mut out: Vec<i16> = Vec::new();
        let mut i: usize = 0;
        assert(values@.skip(0) =~= values@);
        while i < n
            invariant
                n == values@.len(),
                i <= n,
                out@ + rec_encode(values@.skip(i as int)) == rec_encode(values@),
            decreases n - i,
        {
            proof {
                assert(values@.skip(i as int).skip(1) =~= values@.skip(i as int + 1));
                assert(out@ + (rec_encode_one(values@[i as int] as int) + rec_encode(
                    values@.skip(i as int + 1),
                )) =~= (out@ + rec_encode_one(values@[i as int] as int)) + rec_encode(
                    values@.skip(i as int + 1),
                ));
            }
            let mut num = values[i];
            while num >= i16::MAX as i32 || num <= i16::MIN as i32
                invariant
                    out@ + rec_encode_one(num as int) + rec_encode(values@.skip(i as int + 1))
                        == rec_encode(values@),
                decreases (if num >= 0 { num as int } else { -(num as int) }),
            {
                let ghost before = out@;
                let ghost old_num = num as int;
                if num >= i16::MAX as i32 {
                    out.push(i16::MAX);
                    num = num - i16::MAX as i32;
                } else {
                    out.push(i16::MIN);
                    num = num - i16::MIN as i32;
                }
                proof {
                    assert(rec_encode_one(old_num) == seq![out@[out@.len() - 1]]
                        + rec_encode_one(num as int));
                    assert(out@ + rec_encode_one(num as int) + rec_encode(
                        values@.skip(i as int + 1),
                    ) =~= before + rec_encode_one(old_num) + rec_encode(
                        values@.skip(i as int + 1),
                    ));
                }
            }
            let ghost before = out@;
            out.push(num as i16);
            proof {
                assert(rec_encode_one(num as int) =~= seq![num as i16]);
                assert(out@ + rec_encode(values@.skip(i as int + 1)) =~= before + rec_encode_one(
                    num as int,
                ) + rec_encode(values@.skip(i as int + 1)));
            }
            i = i + 1;
        }
        proof {
            assert(rec_encode(values@.skip(n as int)) =~= Seq::<i16>::empty());
            assert(out@ =~= rec_encode(values@));
        }
        Ok(out)
    }
}

proof fn lemma_run_prefix_all_eq(s: Seq<i32>, v: i32)
    ensures
        forall|k: int| 0 <= k < run_prefix_len(s, v) ==> s[k] == v,
    decreases s.len(),
{
    if s.len() > 0 && s[0] == v {
        lemma_run_prefix_all_eq(s.skip(1), v);
        lemma_run_prefix_len_le(s.skip(1), v);
        assert forall|k: int| 0 <= k < run_prefix_len(s, v) implies s[k] == v by {
            if k > 0 {
                assert(0 <= k - 1 < run_prefix_len(s.skip(1), v));
                assert(s.skip(1)[k - 1] == v);
                assert(s.skip(1)[k - 1] == s[k]);
            }
        }
    }
}

/// Run-length decoding inverts run-length encoding: for every sequence whose
/// length fits a 32-bit count, the encoded pairs are well formed and decode
/// back to the original sequence.
pub proof fn lemma_run_length_round_trip(a: Seq<i32>)
    requires
        a.len() <= i32::MAX as int,
    ensures
        rl_valid(rl_encode(a)),
        rl_decode(rl_encode(a)) == a,
    decreases a.len(),
{
    if a.len() == 0 {
        assert(rl_decode(rl_encode(a)) =~= a);
    } else {
        let v = a[0];
        lemma_run_prefix_len_le(a.skip(1), v);
        let run = 1 + run_prefix_len(a.skip(1), v) as int;
        let rest = a.skip(run);
        lemma_run_length_round_trip(rest);
        let pair = seq![v, run as i32];
        let enc_rest = rl_encode(rest);
        assert(rl_encode(a) == pair + enc_rest);
        // The concatenation keeps every count nonnegative.
        assert forall|i: int|
            0 <= i && 2 * i + 1 < (pair + enc_rest).len() implies #[trigger] (pair + enc_rest)[2 * i
            + 1] >= 0 by {
            if i == 0 {
                assert((pair + enc_rest)[1] == run as i32);
            } else {
                assert((pair + enc_rest)[2 * i + 1] == enc_rest[2 * (i - 1) + 1]);
                assert(enc_rest[2 * (i - 1) + 1] >= 0);
            }
        }
        assert(rl_valid(pair + enc_rest));
        lemma_rl_decode_append(pair, enc_rest);
        assert(pair.skip(2) =~= Seq::<i32>::empty());
        assert(rl_decode(pair) == seq_repeat(pair[0], pair[1] as int) + rl_decode(pair.skip(2)));
        assert(rl_decode(pair) =~= seq_repeat(v, run));
        lemma_run_prefix_all_eq(a.skip(1), v);
        assert forall|k: int| 0 <= k < run implies a[k] == v by {
            if k > 0 {
                assert(a.skip(1)[k - 1] == a[k]);
            }
        }
        assert(seq_repeat(v, run) =~= a.take(run));
        assert(rl_decode(rl_encode(a)) =~= a.take(run) + a.skip(run));
        assert(a.take(run) + a.skip(run) =~= a);
    }
}

/// Run-length encoding always yields whole (value, count) pairs.
pub proof fn lemma_rl_encode_even(s: Seq<i32>)
    ensures
        rl_encode(s).len() % 2 == 0,
    decreases s.len(),
{
    if s.len() > 0 {
        lemma_run_prefix_len_le(s.skip(1), s[0]);
        let run = 1 + run_prefix_len(s.skip(1), s[0]) as int;
        lemma_rl_encode_even(s.skip(run));
    }
}

proof fn lemma_delta_prefix(a: Seq<i32>, i: int)
    requires
        0 <= i < a.len(),
    ensures
        wprefix_sum(delta_encode(a), i) == a[i],
    decreases i,
{
    if i > 0 {
        lemma_delta_prefix(a, i - 1);
    }
}

/// Delta decoding inverts delta encoding: every sequence of two or more
/// elements round-trips exactly (the wrapping subtraction of encoding is
/// undone by the wrapping addition of decoding).
pub proof fn lemma_delta_round_trip(a: Seq<i32>)
    requires
        a.len() >= 2,
    ensures
        delta_decode(delta_encode(a)) == a,
{
    assert forall|i: int| 0 <= i < a.len() implies delta_decode(delta_encode(a))[i] == a[i] by {
        lemma_delta_prefix(a, i);
    }
    assert(delta_decode(delta_encode(a)) =~= a);
}

/// Delta decoding leaves a single-element sequence unchanged.
pub proof fn lemma_delta_decode_single(a: Seq<i32>)
    requires
        a.len() == 1,
    ensures
        delta_decode(a) == a,
{
    assert(delta_decode(a) =~= a);
}

proof fn lemma_rec_one(v: int, acc: i32, rest: Seq<i16>)
    requires
        i32::MIN as int <= v + acc <= i32::MAX as int,
        (v >= 0 && acc >= 0) || (v <= 0 && acc <= 0),
    ensures
        rec_decode_i16(rec_encode_one(v) + rest, acc) == seq![(v + acc) as i32]
            + rec_decode_i16(rest, 0),
    decreases (if v >= 0 { v } else { -v }),
{
    if v >= i16::MAX as int {
        let whole = rec_encode_one(v) + rest;
        assert(whole[0] == i16::MAX);
        assert(whole.skip(1) =~= rec_encode_one(v - i16::MAX as int) + rest);
        let acc2 = wadd(acc, i16::MAX as i32);
        assert(acc2 == acc + i16::MAX as i32);
        lemma_rec_one(v - i16::MAX as int, acc2, rest);
    } else if v <= i16::MIN as int {
        let whole = rec_encode_one(v) + rest;
        assert(whole[0] == i16::MIN);
        assert(whole.skip(1) =~= rec_encode_one(v - i16::MIN as int) + rest);
        let acc2 = wadd(acc, i16::MIN as i32);
        assert(acc2 == acc + i16::MIN as i32);
        lemma_rec_one(v - i16::MIN as int, acc2, rest);
    } else {
        let whole = rec_encode_one(v) + rest;
        assert(whole[0] == v as i16);
        assert(whole[0] != i16::MAX && whole[0] != i16::MIN);
        assert(whole.skip(1) =~= rest);
        assert(wadd(acc, whole[0] as i32) == (v + acc) as i32);
    }
}

/// Recursive-indexing decoding inverts recursive-indexing encoding exactly,
/// for every 32-bit sequence.
pub proof fn lemma_recursive_indexing_round_trip(a: Seq<i32>)
    ensures
        rec_decode_i16(rec_encode(a), 0) == a,
    decreases a.len(),
{
    if a.len() == 0 {
        assert(rec_decode_i16(rec_encode(a), 0) =~= a);
    } else {
        lemma_recursive_indexing_round_trip(a.skip(1));
        assert(rec_encode(a) == rec_encode_one(a[0] as int) + rec_encode(a.skip(1)));
        lemma_rec_one(a[0] as int, 0, rec_encode(a.skip(1)));
        assert(rec_decode_i16(rec_encode(a), 0) =~= a);
    }
}

} // verus!
