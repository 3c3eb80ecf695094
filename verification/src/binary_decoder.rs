//! The byte interpreter: lossless, bit-exact conversion between byte buffers
//! and typed arrays, in both directions.
//!
//! All multi-byte groups are big-endian except the character path, which by
//! the wire contract reads little-endian 32-bit groups. 32-bit floats are
//! interpreted as their IEEE-754 binary32 bit patterns, carried as `u32`.

use vstd::prelude::*;
use vstd::slice::slice_subrange;
use vstd::utf8::{decode_utf8, is_scalar, valid_utf8};

use crate::encode::EncodeError;

verus! {

/// Conversion of a raw value (usually a byte slice) into a typed array.
///
/// Each implementation forwards to a free function of this module that
/// carries the full contract; call those directly from verified code.
pub trait Interpret<T>: Sized {
    fn from(values: T) -> Result<Self, EncodeError>;
}

/// The big-endian 32-bit group starting at byte `4 * i`.
pub open spec fn be_u32_at(b: Seq<u8>, i: int) -> u32 {
    ((b[4 * i] as nat) * 0x100_0000 + (b[4 * i + 1] as nat) * 0x1_0000 + (b[4 * i + 2] as nat)
        * 0x100 + (b[4 * i + 3] as nat)) as u32
}

/// The little-endian 32-bit group starting at byte `4 * i`.
pub open spec fn le_u32_at(b: Seq<u8>, i: int) -> u32 {
    ((b[4 * i + 3] as nat) * 0x100_0000 + (b[4 * i + 2] as nat) * 0x1_0000 + (b[4 * i + 1] as nat)
        * 0x100 + (b[4 * i] as nat)) as u32
}

/// The big-endian 16-bit group starting at byte `2 * i`.
pub open spec fn be_u16_at(b: Seq<u8>, i: int) -> u16 {
    ((b[2 * i] as nat) * 0x100 + (b[2 * i + 1] as nat)) as u16
}

/// The bytes interpreted as big-endian two's-complement 32-bit integers.
pub open spec fn spec_i32_seq(b: Seq<u8>) -> Seq<i32> {
    Seq::new((b.len() / 4) as nat, |i: int| be_u32_at(b, i) as i32)
}

/// The bytes interpreted as big-endian two's-complement 16-bit integers.
pub open spec fn spec_i16_seq(b: Seq<u8>) -> Seq<i16> {
    Seq::new((b.len() / 2) as nat, |i: int| be_u16_at(b, i) as i16)
}

/// The bytes interpreted as two's-complement 8-bit integers, one per byte.
pub open spec fn spec_i8_seq(b: Seq<u8>) -> Seq<i8> {
    Seq::new(b.len(), |i: int| b[i] as i8)
}

/// The bytes interpreted as big-endian IEEE-754 binary32 bit patterns.
pub open spec fn spec_f32_bits_seq(b: Seq<u8>) -> Seq<u32> {
    Seq::new((b.len() / 4) as nat, |i: int| be_u32_at(b, i))
}

/// Whether every little-endian 32-bit group is a Unicode scalar value.
pub open spec fn le_chars_valid(b: Seq<u8>) -> bool {
    forall|i: int| 0 <= i < b.len() / 4 ==> is_scalar(#[trigger] le_u32_at(b, i))
}

/// The bytes interpreted as little-endian 32-bit Unicode scalar values.
pub open spec fn spec_le_char_seq(b: Seq<u8>) -> Seq<char> {
    Seq::new((b.len() / 4) as nat, |i: int| le_u32_at(b, i) as char)
}

/// Whether every integer, reinterpreted as unsigned, is a Unicode scalar
/// value.
pub open spec fn i32_chars_valid(s: Seq<i32>) -> bool {
    forall|i: int| 0 <= i < s.len() ==> is_scalar(#[trigger] s[i] as u32)
}

/// The integers reinterpreted as unsigned Unicode scalar values.
pub open spec fn spec_i32_char_seq(s: Seq<i32>) -> Seq<char> {
    Seq::new(s.len(), |i: int| (s[i] as u32) as char)
}

/// The sequence without its trailing NUL (`0x00`) bytes.
pub open spec fn strip_trailing_nuls(s: Seq<u8>) -> Seq<u8>
    decreases s.len(),
{
    if s.len() > 0 && s[s.len() - 1] == 0 {
        strip_trailing_nuls(s.take(s.len() - 1))
    } else {
        s
    }
}

/// The `i`th `w`-byte chunk of the buffer.
pub open spec fn chunk_at(b: Seq<u8>, w: int, i: int) -> Seq<u8> {
    b.subrange(w * i, w * i + w)
}

/// Whether every `w`-byte chunk, after stripping trailing NULs, is valid
/// UTF-8.
pub open spec fn string_chunks_valid(b: Seq<u8>, w: int) -> bool {
    forall|i: int|
        0 <= i < (b.len() as int) / w ==> valid_utf8(strip_trailing_nuls(#[trigger] chunk_at(b, w, i)))
}

/// The bytes interpreted as fixed-width strings: each `w`-byte chunk is
/// stripped of trailing NULs and decoded as UTF-8.
pub open spec fn spec_string_seq(b: Seq<u8>, w: int) -> Seq<Seq<char>> {
    Seq::new(((b.len() as int) / w) as nat, |i: int| decode_utf8(strip_trailing_nuls(chunk_at(b, w, i))))
}

/// The four big-endian bytes of a 32-bit integer.
pub open spec fn i32_be_bytes(v: i32) -> Seq<u8> {
    seq![
        ((v as u32) / 0x100_0000) as u8,
        (((v as u32) / 0x1_0000) % 0x100) as u8,
        (((v as u32) / 0x100) % 0x100) as u8,
        ((v as u32) % 0x100) as u8,
    ]
}

/// The big-endian byte serialization of a 32-bit integer sequence.
pub open spec fn i32s_be_bytes(s: Seq<i32>) -> Seq<u8> {
    Seq::new((4 * s.len()) as nat, |i: int| i32_be_bytes(s[i / 4])[i % 4])
}

/// The two big-endian bytes of a 16-bit integer.
pub open spec fn i16_be_bytes(v: i16) -> Seq<u8> {
    seq![((v as u16) / 0x100) as u8, ((v as u16) % 0x100) as u8]
}

/// The big-endian byte serialization of a 16-bit integer sequence.
pub open spec fn i16s_be_bytes(s: Seq<i16>) -> Seq<u8> {
    Seq::new((2 * s.len()) as nat, |i: int| i16_be_bytes(s[i / 2])[i % 2])
}

proof fn lemma_u32_byte_recomposition(u: u32)
    ensures
        ((u / 0x100_0000) as nat) * 0x100_0000 + (((u / 0x1_0000) % 0x100) as nat) * 0x1_0000 + ((
        (u / 0x100) % 0x100) as nat) * 0x100 + ((u % 0x100) as nat) == u,
{
    let x = u as int;
    vstd::arithmetic::div_mod::lemma_fundamental_div_mod(x, 0x100_0000);
    assert(x == 0x100_0000 * (x / 0x100_0000) + x % 0x100_0000);
    vstd::arithmetic::div_mod::lemma_breakdown(x, 0x1_0000, 0x100);
    assert(x % 0x100_0000 == 0x1_0000 * ((x / 0x1_0000) % 0x100) + x % 0x1_0000);
    vstd::arithmetic::div_mod::lemma_breakdown(x, 0x100, 0x100);
    assert(x % 0x1_0000 == 0x100 * ((x / 0x100) % 0x100) + x % 0x100);
}

proof fn lemma_i32_u32_identity(v: i32)
    ensures
        ((v as u32) as i32) == v,
{
    assert(((v as u32) as i32) == v) by (bit_vector);
}

/// The byte serialization of 32-bit integers is lossless: interpreting the
/// big-endian bytes of a sequence gives the sequence back.
pub proof fn lemma_i32_bytes_round_trip(s: Seq<i32>)
    ensures
        spec_i32_seq(i32s_be_bytes(s)) == s,
{
    let b = i32s_be_bytes(s);
    assert forall|i: int| 0 <= i < s.len() implies spec_i32_seq(b)[i] == s[i] by {
        let u = s[i] as u32;
        assert forall|k: int| 0 <= k < 4 implies b[4 * i + k] == i32_be_bytes(s[i])[k] by {
            vstd::arithmetic::div_mod::lemma_div_multiples_vanish_fancy(i, k, 4);
            vstd::arithmetic::div_mod::lemma_fundamental_div_mod(4 * i + k, 4);
        }
        lemma_u32_byte_recomposition(u);
        assert(be_u32_at(b, i) == u);
        lemma_i32_u32_identity(s[i]);
    }
    assert(spec_i32_seq(b) =~= s);
}

proof fn lemma_u16_byte_recomposition(u: u16)
    ensures
        ((u / 0x100) as nat) * 0x100 + ((u % 0x100) as nat) == u,
{
    vstd::arithmetic::div_mod::lemma_fundamental_div_mod(u as int, 0x100);
}

proof fn lemma_i16_u16_identity(v: i16)
    ensures
        ((v as u16) as i16) == v,
{
    assert(((v as u16) as i16) == v) by (bit_vector);
}

/// The byte serialization of 16-bit integers is lossless: interpreting the
/// big-endian bytes of a sequence gives the sequence back.
pub proof fn lemma_i16_bytes_round_trip(s: Seq<i16>)
    ensures
        spec_i16_seq(i16s_be_bytes(s)) == s,
{
    let b = i16s_be_bytes(s);
    assert forall|i: int| 0 <= i < s.len() implies spec_i16_seq(b)[i] == s[i] by {
        let u = s[i] as u16;
        assert forall|k: int| 0 <= k < 2 implies b[2 * i + k] == i16_be_bytes(s[i])[k] by {
            vstd::arithmetic::div_mod::lemma_div_multiples_vanish_fancy(i, k, 2);
            vstd::arithmetic::div_mod::lemma_fundamental_div_mod(2 * i + k, 2);
        }
        lemma_u16_byte_recomposition(u);
        assert(be_u16_at(b, i) == u);
        lemma_i16_u16_identity(s[i]);
    }
    assert(spec_i16_seq(b) =~= s);
}

fn read_be_u32(b: &[u8], i: usize) -> (r: u32)
    requires
        4 * (i as int) + 4 <= b@.len(),
    ensures
        r == be_u32_at(b@, i as int),
{
    let _len: usize = b.len();
    let j = 4 * i;
    (b[j] as u32) * 0x100_0000 + (b[j + 1] as u32) * 0x1_0000 + (b[j + 2] as u32) * 0x100 + (b[j
        + 3] as u32)
}

fn read_le_u32(b: &[u8], i: usize) -> (r: u32)
    requires
        4 * (i as int) + 4 <= b@.len(),
    ensures
        r == le_u32_at(b@, i as int),
{
    let _len: usize = b.len();
    let j = 4 * i;
    (b[j + 3] as u32) * 0x100_0000 + (b[j + 2] as u32) * 0x1_0000 + (b[j + 1] as u32) * 0x100 + (
    b[j] as u32)
}

fn read_be_u16(b: &[u8], i: usize) -> (r: u16)
    requires
        2 * (i as int) + 2 <= b@.len(),
    ensures
        r == be_u16_at(b@, i as int),
{
    let _len: usize = b.len();
    let j = 2 * i;
    (b[j] as u16) * 0x100 + (b[j + 1] as u16)
}

/// Interprets a byte buffer as big-endian two's-complement 32-bit integers.
/// The buffer length must be a multiple of four.
pub fn interpret_i32s(b: &[u8]) -> (r: Result<Vec<i32>, EncodeError>)
    ensures
        match r {
            Ok(v) => b@.len() % 4 == 0 && v@ == spec_i32_seq(b@),
            Err(e) => b@.len() % 4 != 0 && e == EncodeError::TruncatedInput,
        },
{
    if b.len() % 4 != 0 {
        return Err(EncodeError::TruncatedInput);
    }
    let n = b.len() / 4;
    let mut out: Vec<i32> = Vec::new();
    let mut i: usize = 0;
    while i < n
        invariant
            b@.len() % 4 == 0,
            n == b@.len() / 4,
            i <= n,
            out@.len() == i,
            forall|j: int| 0 <= j < i ==> out@[j] == be_u32_at(b@, j) as i32,
        decreases n - i,
    {
        let w = read_be_u32(b, i);
        out.push(#[verifier::truncate] (w as i32));
        i = i + 1;
    }
    assert(out@ =~= spec_i32_seq(b@));
    Ok(out)
}

/// Interprets a byte buffer as big-endian two's-complement 16-bit integers.
/// The buffer length must be a multiple of two.
pub fn interpret_i16s(b: &[u8]) -> (r: Result<Vec<i16>, EncodeError>)
    ensures
        match r {
            Ok(v) => b@.len() % 2 == 0 && v@ == spec_i16_seq(b@),
            Err(e) => b@.len() % 2 != 0 && e == EncodeError::TruncatedInput,
        },
{
    if b.len() % 2 != 0 {
        return Err(EncodeError::TruncatedInput);
    }
    let n = b.len() / 2;
    let mut out: Vec<i16> = Vec::new();
    let mut i: usize = 0;
    while i < n
        invariant
            b@.len() % 2 == 0,
            n == b@.len() / 2,
            i <= n,
            out@.len() == i,
            forall|j: int| 0 <= j < i ==> out@[j] == be_u16_at(b@, j) as i16,
        decreases n - i,
    {
        let w = read_be_u16(b, i);
        out.push(#[verifier::truncate] (w as i16));
        i = i + 1;
    }
    assert(out@ =~= spec_i16_seq(b@));
    Ok(out)
}

/// Interprets a byte buffer as two's-complement 8-bit integers, one per
/// byte. Any length is valid.
pub fn interpret_i8s(b: &[u8]) -> (r: Result<Vec<i8>, EncodeError>)
    ensures
        r matches Ok(v) && v@ == spec_i8_seq(b@),
{
    let n = b.len();
    let mut out: Vec<i8> = Vec::new();
    let mut i: usize = 0;
    while i < n
        invariant
            n == b@.len(),
            i <= n,
            out@.len() == i,
            forall|j: int| 0 <= j < i ==> out@[j] == b@[j] as i8,
        decreases n - i,
    {
        out.push(#[verifier::truncate] (b[i] as i8));
        i = i + 1;
    }
    assert(out@ =~= spec_i8_seq(b@));
    Ok(out)
}

/// Interprets a byte buffer as big-endian IEEE-754 binary32 values, returned
/// as their bit patterns. The buffer length must be a multiple of four.
pub fn interpret_f32_bits(b: &[u8]) -> (r: Result<Vec<u32>, EncodeError>)
    ensures
        match r {
            Ok(v) => b@.len() % 4 == 0 && v@ == spec_f32_bits_seq(b@),
            Err(e) => b@.len() % 4 != 0 && e == EncodeError::TruncatedInput,
        },
{
    if b.len() % 4 != 0 {
        return Err(EncodeError::TruncatedInput);
    }
    let n = b.len() / 4;
    let mut out: Vec<u32> = Vec::new();
    let mut i: usize = 0;
    while i < n
        invariant
            b@.len() % 4 == 0,
            n == b@.len() / 4,
            i <= n,
            out@.len() == i,
            forall|j: int| 0 <= j < i ==> out@[j] == be_u32_at(b@, j),
        decreases n - i,
    {
        out.push(read_be_u32(b, i));
        i = i + 1;
    }
    assert(out@ =~= spec_f32_bits_seq(b@));
    Ok(out)
}

/// Relies on `char::from_u32`: `Some` exactly on Unicode scalar values (not
/// a surrogate and at most 0x10FFFF), and the character then has that value.
pub assume_specification[ char::from_u32 ](i: u32) -> (r: Option<char>)
    ensures
        match r {
            Some(c) => is_scalar(i) && c == i as char,
            None => !is_scalar(i),
        },
;

/// Interprets a byte buffer as little-endian 32-bit Unicode scalar values.
/// The buffer length must be a multiple of four and every group must be a
/// valid scalar value.
pub fn interpret_chars(b: &[u8]) -> (r: Result<Vec<char>, EncodeError>)
    ensures
        match r {
            Ok(v) => b@.len() % 4 == 0 && le_chars_valid(b@) && v@ == spec_le_char_seq(b@),
            Err(e) => {
                if b@.len() % 4 != 0 {
                    e == EncodeError::TruncatedInput
                } else {
                    !le_chars_valid(b@) && e == EncodeError::MalformedEncoding
                }
            },
        },
{
    if b.len() % 4 != 0 {
        return Err(EncodeError::TruncatedInput);
    }
    let n = b.len() / 4;
    let mut out: Vec<char> = Vec::new();
    let mut i: usize = 0;
    while i < n
        invariant
            b@.len() % 4 == 0,
            n == b@.len() / 4,
            i <= n,
            out@.len() == i,
            forall|j: int| 0 <= j < i ==> is_scalar(#[trigger] le_u32_at(b@, j)),
            forall|j: int| 0 <= j < i ==> out@[j] == le_u32_at(b@, j) as char,
        decreases n - i,
    {
        let w = read_le_u32(b, i);
        match char::from_u32(w) {
            Some(c) => out.push(c),
            None => {
                return Err(EncodeError::MalformedEncoding);
            },
        }
        i = i + 1;
    }
    assert(out@ =~= spec_le_char_seq(b@));
    Ok(out)
}

/// Reinterprets 32-bit integers as Unicode scalar values (the value of each
/// integer taken as an unsigned 32-bit number, which equals reading the
/// integer's bytes as a little-endian group).
pub fn chars_from_i32s(values: &[i32]) -> (r: Result<Vec<char>, EncodeError>)
    ensures
        match r {
            Ok(v) => i32_chars_valid(values@) && v@ == spec_i32_char_seq(values@),
            Err(e) => !i32_chars_valid(values@) && e == EncodeError::MalformedEncoding,
        },
{
    let n = values.len();
    let mut out: Vec<char> = Vec::new();
    let mut i: usize = 0;
    while i < n
        invariant
            n == values@.len(),
            i <= n,
            out@.len() == i,
            forall|j: int| 0 <= j < i ==> is_scalar(#[trigger] values@[j] as u32),
            forall|j: int| 0 <= j < i ==> out@[j] == (values@[j] as u32) as char,
        decreases n - i,
    {
        let w = #[verifier::truncate] (values[i] as u32);
        match char::from_u32(w) {
            Some(c) => out.push(c),
            None => {
                return Err(EncodeError::MalformedEncoding);
            },
        }
        i = i + 1;
    }
    assert(out@ =~= spec_i32_char_seq(values@));
    Ok(out)
}

/// Relies on `alloc::string::String::from_utf8`: it returns `Ok` exactly on
/// valid UTF-8 input, and the string then holds the bytes' Unicode scalar
/// values in order.
#[verifier::external_body]
fn string_from_utf8(bytes: &[u8]) -> (r: Option<String>)
    ensures
        match r {
            Some(s) => valid_utf8(bytes@) && s@ == decode_utf8(bytes@),
            None => !valid_utf8(bytes@),
        },
{
    String::from_utf8(bytes.to_vec()).ok()
}

proof fn lemma_strip_trailing_nuls(s: Seq<u8>, e: int)
    requires
        0 <= e <= s.len(),
        forall|k: int| e <= k < s.len() ==> s[k] == 0,
        e > 0 ==> s[e - 1] != 0,
    ensures
        strip_trailing_nuls(s) == s.take(e),
    decreases s.len() - e,
{
    if e == s.len() {
        assert(s.take(e) =~= s);
    } else {
        assert(s[s.len() - 1] == 0);
        let t = s.take(s.len() - 1);
        lemma_strip_trailing_nuls(t, e);
        assert(t.take(e) =~= s.take(e));
    }
}

/// Interprets a byte buffer as fixed-width strings: each `width`-byte chunk
/// is stripped of its trailing NUL bytes and decoded as UTF-8. The buffer
/// length must be a multiple of the width.
pub fn interpret_strings(b: &[u8], width: usize) -> (r: Result<Vec<String>, EncodeError>)
    requires
        width >= 1,
    ensures
        match r {
            Ok(v) => (b@.len() as int) % (width as int) == 0 && string_chunks_valid(b@, width as int)
                && v.deep_view() == spec_string_seq(b@, width as int),
            Err(e) => {
                if (b@.len() as int) % (width as int) != 0 {
                    e == EncodeError::TruncatedInput
                } else {
                    !string_chunks_valid(b@, width as int) && e == EncodeError::MalformedEncoding
                }
            },
        },
{
    if b.len() % width != 0 {
        return Err(EncodeError::TruncatedInput);
    }
    let n = b.len() / width;
    let mut out: Vec<String> = Vec::new();
    let mut i: usize = 0;
    while i < n
        invariant
            width >= 1,
            (b@.len() as int) % (width as int) == 0,
            n == (b@.len() as int) / (width as int),
            i <= n,
            out@.len() == i,
            forall|j: int|
                0 <= j < i ==> valid_utf8(strip_trailing_nuls(#[trigger] chunk_at(
                    b@,
                    width as int,
                    j,
                ))),
            forall|j: int|
                0 <= j < i ==> out@[j].deep_view() == decode_utf8(
                    strip_trailing_nuls(#[trigger] chunk_at(b@, width as int, j)),
                ),
        decreases n - i,
    {
        let _blen: usize = b.len();
        proof {
            let ln = b@.len() as int;
            let w = width as int;
            vstd::arithmetic::div_mod::lemma_fundamental_div_mod(ln, w);
            vstd::arithmetic::mul::lemma_mul_inequality(i as int + 1, n as int, w);
            vstd::arithmetic::mul::lemma_mul_is_distributive_add_other_way(w, i as int, 1);
            vstd::arithmetic::mul::lemma_mul_is_commutative(n as int, w);
            assert((i as int) * w + w <= ln);
        }
        let start = i * width;
        let chunk = slice_subrange(b, start, start + width);
        // Find the end of the chunk once trailing NUL bytes are stripped.
        let mut e: usize = width;
        while e > 0 && chunk[e - 1] == 0
            invariant
                e <= width,
                chunk@.len() == width,
                forall|k: int| e <= k < width ==> chunk@[k] == 0,
            decreases e,
        {
            e = e - 1;
        }
        proof {
            lemma_strip_trailing_nuls(chunk@, e as int);
        }
        assert(start as int == (i as int) * (width as int));
        assert((i as int) * (width as int) == (width as int) * (i as int)) by (nonlinear_arith);
        assert(chunk@ =~= chunk_at(b@, width as int, i as int));
        let stripped = slice_subrange(chunk, 0, e);
        assert(stripped@ =~= strip_trailing_nuls(chunk@));
        match string_from_utf8(stripped) {
            Some(s) => {
                out.push(s);
                assert(chunk@ =~= chunk_at(b@, width as int, i as int));
            },
            None => {
                assert(chunk@ =~= chunk_at(b@, width as int, i as int));
                return Err(EncodeError::MalformedEncoding);
            },
        }
        i = i + 1;
    }
    assert(out.deep_view() =~= spec_string_seq(b@, width as int));
    Ok(out)
}

/// Serializes 32-bit integers as big-endian bytes, four per element.
pub fn i32s_to_be_bytes(values: &[i32]) -> (r: Vec<u8>)
    ensures
        r@ == i32s_be_bytes(values@),
{
    let n = values.len();
    let mut out: Vec<u8> = Vec::new();
    let mut i: usize = 0;
    while i < n
        invariant
            n == values@.len(),
            i <= n,
            out@.len() == 4 * i,
            forall|j: int| 0 <= j < 4 * i ==> out@[j] == i32_be_bytes(values@[j / 4])[j % 4],
        decreases n - i,
    {
        let v = values[i];
        let u = #[verifier::truncate] (v as u32);
        out.push((u / 0x100_0000) as u8);
        out.push(#[verifier::truncate] (((u / 0x1_0000) % 0x100) as u8));
        out.push(#[verifier::truncate] (((u / 0x100) % 0x100) as u8));
        out.push(#[verifier::truncate] ((u % 0x100) as u8));
        i = i + 1;
    }
    assert(out@ =~= i32s_be_bytes(values@));
    out
}

/// Serializes 16-bit integers as big-endian bytes, two per element.
pub fn i16s_to_be_bytes(values: &[i16]) -> (r: Vec<u8>)
    ensures
        r@ == i16s_be_bytes(values@),
{
    let n = values.len();
    let mut out: Vec<u8> = Vec::new();
    let mut i: usize = 0;
    while i < n
        invariant
            n == values@.len(),
            i <= n,
            out@.len() == 2 * i,
            forall|j: int| 0 <= j < 2 * i ==> out@[j] == i16_be_bytes(values@[j / 2])[j % 2],
        decreases n - i,
    {
        let v = values[i];
        let u = #[verifier::truncate] (v as u16);
        out.push((u / 0x100) as u8);
        out.push(#[verifier::truncate] ((u % 0x100) as u8));
        i = i + 1;
    }
    assert(out@ =~= i16s_be_bytes(values@));
    out
}

/// The 16-bit integers widened to 32 bits.
pub open spec fn i16s_as_i32s(s: Seq<i16>) -> Seq<i32> {
    Seq::new(s.len(), |i: int| s[i] as i32)
}

/// The 8-bit integers widened to 32 bits.
pub open spec fn i8s_as_i32s(s: Seq<i8>) -> Seq<i32> {
    Seq::new(s.len(), |i: int| s[i] as i32)
}

/// Widens 16-bit integers to 32 bits, value for value.
pub fn widen_i16s(values: &[i16]) -> (r: Vec<i32>)
    ensures
        r@ == i16s_as_i32s(values@),
{
    let n = values.len();
    let mut out: Vec<i32> = Vec::new();
    let mut i: usize = 0;
    while i < n
        invariant
            n == values@.len(),
            i <= n,
            out@.len() == i,
            forall|j: int| 0 <= j < i ==> out@[j] == values@[j] as i32,
        decreases n - i,
    {
        out.push(values[i] as i32);
        i = i + 1;
    }
    assert(out@ =~= i16s_as_i32s(values@));
    out
}

/// Widens 8-bit integers to 32 bits, value for value.
pub fn widen_i8s(values: &[i8]) -> (r: Vec<i32>)
    ensures
        r@ == i8s_as_i32s(values@),
{
    let n = values.len();
    let mut out: Vec<i32> = Vec::new();
    let mut i: usize = 0;
    while i < n
        invariant
            n == values@.len(),
            i <= n,
            out@.len() == i,
            forall|j: int| 0 <= j < i ==> out@[j] == values@[j] as i32,
        decreases n - i,
    {
        out.push(values[i] as i32);
        i = i + 1;
    }
    assert(out@ =~= i8s_as_i32s(values@));
    out
}

impl<'a> Interpret<&'a [u8]> for Vec<i32> {
    fn from(values: &'a [u8]) -> Result<Vec<i32>, EncodeError> {
        interpret_i32s(values)
    }
}

impl<'a> Interpret<&'a [u8]> for Vec<i16> {
    fn from(values: &'a [u8]) -> Result<Vec<i16>, EncodeError> {
        interpret_i16s(values)
    }
}

impl<'a> Interpret<&'a [u8]> for Vec<i8> {
    fn from(values: &'a [u8]) -> Result<Vec<i8>, EncodeError> {
        interpret_i8s(values)
    }
}

impl<'a> Interpret<&'a [u8]> for Vec<u32> {
    /// The 32-bit float interpretation, as IEEE-754 binary32 bit patterns.
    fn from(values: &'a [u8]) -> Result<Vec<u32>, EncodeError> {
        interpret_f32_bits(values)
    }
}

impl<'a> Interpret<&'a [u8]> for Vec<char> {
    fn from(values: &'a [u8]) -> Result<Vec<char>, EncodeError> {
        interpret_chars(values)
    }
}

impl<'a> Interpret<&'a [i32]> for Vec<char> {
    fn from(values: &'a [i32]) -> Result<Vec<char>, EncodeError> {
        chars_from_i32s(values)
    }
}

impl<'a> Interpret<&'a [u8]> for Vec<String> {
    fn from(values: &'a [u8]) -> Result<Vec<String>, EncodeError> {
        interpret_strings(values, 4)
    }
}

impl<'a> Interpret<&'a [i32]> for Vec<u8> {
    fn from(values: &'a [i32]) -> Result<Vec<u8>, EncodeError> {
        Ok(i32s_to_be_bytes(values))
    }
}

impl<'a> Interpret<&'a [i16]> for Vec<u8> {
    fn from(values: &'a [i16]) -> Result<Vec<u8>, EncodeError> {
        Ok(i16s_to_be_bytes(values))
    }
}

} // verus!
