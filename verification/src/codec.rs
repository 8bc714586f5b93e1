//! Leaf values of the binary format, read through the `borsh` crate.

use borsh::BorshDeserialize;
use vstd::prelude::*;
use vstd::slice::slice_subrange;
use vstd::utf8::{decode_utf8, valid_utf8};

verus! {

/// `std::io::Error`, the error type that `borsh` reports, declared as an
/// opaque type.
#[verifier::external_type_specification]
#[verifier::external_body]
pub struct ExIoError(std::io::Error);

/// Why a byte buffer is not an encoding of the requested record.
#[derive(Clone, Copy, Debug, PartialEq, Eq, Structural)]
pub enum DecodeError {
    /// The buffer ends before the value does.
    UnexpectedEnd,
    /// A union discriminant or a presence flag is out of range.
    InvalidTag,
    /// The bytes of a string are not well-formed UTF-8.
    InvalidText,
    /// Bytes are left over after the record.
    TrailingBytes,
}

/// Whether an executable parse result is the one that the format prescribes:
/// the same value and the same position after it, or the same error.
pub open spec fn parse_matches<T: View>(
    r: Result<(T, usize), DecodeError>,
    expected: Result<(T::V, int), DecodeError>,
) -> bool {
    match expected {
        Ok((value, next)) => r is Ok && r->Ok_0.0@ == value && r->Ok_0.1 == next,
        Err(e) => r is Err && r->Err_0 == e,
    }
}

/// The number that `bytes` encode in little-endian order.
pub open spec fn le_value(bytes: Seq<u8>) -> nat
    decreases bytes.len(),
{
    if bytes.len() == 0 {
        0
    } else {
        bytes[0] as nat + 256 * le_value(bytes.drop_first())
    }
}

/// Calls `<u8 as BorshDeserialize>::deserialize` on `input`. The contract
/// claims that it fails exactly on an empty input and otherwise returns the
/// first byte.
#[verifier::external_body]
fn codec_u8(input: &[u8]) -> (r: Result<u8, std::io::Error>)
    ensures
        input@.len() >= 1 ==> r is Ok && r->Ok_0 == input@[0],
        input@.len() < 1 ==> r is Err,
{
    let mut rest = input;
    u8::deserialize(&mut rest)
}

/// Calls `<u32 as BorshDeserialize>::deserialize` on `input`. The contract
/// claims that it fails exactly when fewer than four bytes are given and
/// otherwise returns the little-endian value of the first four.
#[verifier::external_body]
fn codec_u32(input: &[u8]) -> (r: Result<u32, std::io::Error>)
    ensures
        input@.len() >= 4 ==> r is Ok && r->Ok_0 as nat == le_value(input@.subrange(0, 4)),
        input@.len() < 4 ==> r is Err,
{
    let mut rest = input;
    u32::deserialize(&mut rest)
}

/// Calls `<u64 as BorshDeserialize>::deserialize` on `input`. The contract
/// claims that it fails exactly when fewer than eight bytes are given and
/// otherwise returns the little-endian value of the first eight.
#[verifier::external_body]
fn codec_u64(input: &[u8]) -> (r: Result<u64, std::io::Error>)
    ensures
        input@.len() >= 8 ==> r is Ok && r->Ok_0 as nat == le_value(input@.subrange(0, 8)),
        input@.len() < 8 ==> r is Err,
{
    let mut rest = input;
    u64::deserialize(&mut rest)
}

/// The length that a string frame announces in its first four bytes.
pub open spec fn frame_len(input: Seq<u8>) -> int {
    le_value(input.subrange(0, 4)) as int
}

/// Whether `input` starts with a string: a length in four bytes, then that
/// many bytes of well-formed UTF-8.
pub open spec fn string_frame_ok(input: Seq<u8>) -> bool {
    &&& input.len() >= 4
    &&& input.len() >= 4 + frame_len(input)
    &&& valid_utf8(input.subrange(4, 4 + frame_len(input)))
}

/// Calls `<String as BorshDeserialize>::deserialize` on `input`. The contract
/// claims that it succeeds exactly when `input` starts with a length in four
/// little-endian bytes followed by that many bytes of well-formed UTF-8, and
/// that it then returns the text that those bytes encode.
#[verifier::external_body]
fn codec_string(input: &[u8]) -> (r: Result<String, std::io::Error>)
    ensures
        string_frame_ok(input@) ==> r is Ok && r->Ok_0@ == decode_utf8(
            input@.subrange(4, 4 + frame_len(input@)),
        ),
        !string_frame_ok(input@) ==> r is Err,
{
    let mut rest = input;
    String::deserialize(&mut rest)
}

/// Calls `<[u8; 32] as BorshDeserialize>::deserialize` on `input`. The
/// contract claims that it fails exactly when fewer than 32 bytes are given
/// and otherwise returns the first 32.
#[verifier::external_body]
fn codec_bytes32(input: &[u8]) -> (r: Result<[u8; 32], std::io::Error>)
    ensures
        input@.len() >= 32 ==> r is Ok && r->Ok_0@ == input@.subrange(0, 32),
        input@.len() < 32 ==> r is Err,
{
    let mut rest = input;
    <[u8; 32]>::deserialize(&mut rest)
}

/// One byte at `pos`.
pub open spec fn spec_u8(s: Seq<u8>, pos: int) -> Result<(u8, int), DecodeError> {
    if 0 <= pos && pos + 1 <= s.len() {
        Ok((s[pos], pos + 1))
    } else {
        Err(DecodeError::UnexpectedEnd)
    }
}

/// Four bytes at `pos`, little-endian.
pub open spec fn spec_u32(s: Seq<u8>, pos: int) -> Result<(u32, int), DecodeError> {
    if 0 <= pos && pos + 4 <= s.len() {
        Ok((le_value(s.subrange(pos, pos + 4)) as u32, pos + 4))
    } else {
        Err(DecodeError::UnexpectedEnd)
    }
}

/// Eight bytes at `pos`, little-endian.
pub open spec fn spec_u64(s: Seq<u8>, pos: int) -> Result<(u64, int), DecodeError> {
    if 0 <= pos && pos + 8 <= s.len() {
        Ok((le_value(s.subrange(pos, pos + 8)) as u64, pos + 8))
    } else {
        Err(DecodeError::UnexpectedEnd)
    }
}

/// Thirty-two bytes at `pos`, as they stand.
pub open spec fn spec_bytes32(s: Seq<u8>, pos: int) -> Result<(Seq<u8>, int), DecodeError> {
    if 0 <= pos && pos + 32 <= s.len() {
        Ok((s.subrange(pos, pos + 32), pos + 32))
    } else {
        Err(DecodeError::UnexpectedEnd)
    }
}

/// A string at `pos`: its length in four bytes, little-endian, then that
/// many bytes of UTF-8.
pub open spec fn spec_string(s: Seq<u8>, pos: int) -> Result<(Seq<char>, int), DecodeError> {
    match spec_u32(s, pos) {
        Err(e) => Err(e),
        Ok((n, start)) => if start + n > s.len() {
            Err(DecodeError::UnexpectedEnd)
        } else if !valid_utf8(s.subrange(start, start + n)) {
            Err(DecodeError::InvalidText)
        } else {
            Ok((decode_utf8(s.subrange(start, start + n)), start + n))
        },
    }
}

/// Whether `a` is the beginning of `b`.
pub open spec fn is_prefix(a: Seq<u8>, b: Seq<u8>) -> bool {
    a.len() <= b.len() && forall|i: int| 0 <= i < a.len() ==> a[i] == b[i]
}

/// What reading gives when only the first `len` bytes of the buffer are
/// there, for a value that the whole buffer holds.
pub open spec fn cut_short<V>(whole: Result<(V, int), DecodeError>, len: int) -> Result<
    (V, int),
    DecodeError,
> {
    match whole {
        Ok((_, next)) => if next <= len {
            whole
        } else {
            Err(DecodeError::UnexpectedEnd)
        },
        Err(_) => whole,
    }
}

/// The little-endian value of `n` bytes is below `256^n`; here for the
/// widths that the format uses.
pub proof fn lemma_le_value_bound(bytes: Seq<u8>)
    ensures
        bytes.len() == 4 ==> le_value(bytes) < 0x1_0000_0000,
        bytes.len() == 8 ==> le_value(bytes) < 0x1_0000_0000_0000_0000,
{
    reveal_with_fuel(le_value, 9);
}

/// 256 to the power `k`.
pub open spec fn pow256(k: nat) -> nat
    decreases k,
{
    if k == 0 {
        1
    } else {
        256 * pow256((k - 1) as nat)
    }
}

/// The little-endian value of a byte string, from the values of its first
/// `k` bytes and of the rest.
pub proof fn lemma_le_value_split(bytes: Seq<u8>, k: int)
    requires
        0 <= k <= bytes.len(),
    ensures
        le_value(bytes) == le_value(bytes.take(k)) + pow256(k as nat) * le_value(bytes.skip(k)),
    decreases k,
{
    if k == 0 {
        assert(bytes.skip(0) == bytes);
        assert(bytes.take(0).len() == 0);
        let one = pow256(k as nat);
        let tail = le_value(bytes.skip(k));
        assert(one * tail == tail) by (nonlinear_arith)
            requires
                one == 1,
        ;
    } else {
        let rest = bytes.drop_first();
        lemma_le_value_split(rest, k - 1);
        assert(bytes.take(k).drop_first() == rest.take(k - 1));
        assert(bytes.skip(k) == rest.skip(k - 1));
        let low = le_value(rest.take(k - 1));
        let high = le_value(rest.skip(k - 1));
        let p = pow256((k - 1) as nat);
        assert(le_value(bytes) == bytes[0] + 256 * le_value(rest));
        assert(le_value(bytes.take(k)) == bytes[0] + 256 * low);
        assert(pow256(k as nat) == 256 * p);
        let whole = pow256(k as nat);
        let tail = le_value(bytes.skip(k));
        assert(256 * (low + p * high) == 256 * low + whole * tail) by (nonlinear_arith)
            requires
                whole == 256 * p,
                tail == high,
        ;
    }
}

/// A byte is read alike from a buffer and from a beginning of it that still
/// holds the byte.
pub proof fn lemma_u8(s: Seq<u8>, pos: int)
    ensures
        spec_u8(s, pos) matches Ok((_, next)) ==> 0 <= pos <= next <= s.len(),
        forall|t: Seq<u8>|
            #![trigger spec_u8(t, pos)]
            spec_u8(s, pos) is Ok && is_prefix(t, s) ==> spec_u8(t, pos) == cut_short(
                spec_u8(s, pos),
                t.len() as int,
            ),
{
}

/// Four bytes are read alike from a buffer and from a beginning of it that
/// still holds them.
pub proof fn lemma_u32(s: Seq<u8>, pos: int)
    ensures
        spec_u32(s, pos) matches Ok((_, next)) ==> 0 <= pos <= next <= s.len(),
        forall|t: Seq<u8>|
            #![trigger spec_u32(t, pos)]
            spec_u32(s, pos) is Ok && is_prefix(t, s) ==> spec_u32(t, pos) == cut_short(
                spec_u32(s, pos),
                t.len() as int,
            ),
{
    assert forall|t: Seq<u8>|
        #![trigger spec_u32(t, pos)]
        spec_u32(s, pos) is Ok && is_prefix(t, s) implies spec_u32(t, pos) == cut_short(
        spec_u32(s, pos),
        t.len() as int,
    ) by {
        if pos + 4 <= t.len() {
            assert(t.subrange(pos, pos + 4) == s.subrange(pos, pos + 4));
        }
    }
}

/// Eight bytes are read alike from a buffer and from a beginning of it that
/// still holds them.
pub proof fn lemma_u64(s: Seq<u8>, pos: int)
    ensures
        spec_u64(s, pos) matches Ok((_, next)) ==> 0 <= pos <= next <= s.len(),
        forall|t: Seq<u8>|
            #![trigger spec_u64(t, pos)]
            spec_u64(s, pos) is Ok && is_prefix(t, s) ==> spec_u64(t, pos) == cut_short(
                spec_u64(s, pos),
                t.len() as int,
            ),
{
    assert forall|t: Seq<u8>|
        #![trigger spec_u64(t, pos)]
        spec_u64(s, pos) is Ok && is_prefix(t, s) implies spec_u64(t, pos) == cut_short(
        spec_u64(s, pos),
        t.len() as int,
    ) by {
        if pos + 8 <= t.len() {
            assert(t.subrange(pos, pos + 8) == s.subrange(pos, pos + 8));
        }
    }
}

/// Thirty-two bytes are read alike from a buffer and from a beginning of it
/// that still holds them.
pub proof fn lemma_bytes32(s: Seq<u8>, pos: int)
    ensures
        spec_bytes32(s, pos) matches Ok((_, next)) ==> 0 <= pos <= next <= s.len(),
        forall|t: Seq<u8>|
            #![trigger spec_bytes32(t, pos)]
            spec_bytes32(s, pos) is Ok && is_prefix(t, s) ==> spec_bytes32(t, pos) == cut_short(
                spec_bytes32(s, pos),
                t.len() as int,
            ),
{
    assert forall|t: Seq<u8>|
        #![trigger spec_bytes32(t, pos)]
        spec_bytes32(s, pos) is Ok && is_prefix(t, s) implies spec_bytes32(t, pos) == cut_short(
        spec_bytes32(s, pos),
        t.len() as int,
    ) by {
        if pos + 32 <= t.len() {
            assert(t.subrange(pos, pos + 32) == s.subrange(pos, pos + 32));
        }
    }
}

/// A string is read alike from a buffer and from a beginning of it that
/// still holds the string.
pub proof fn lemma_string(s: Seq<u8>, pos: int)
    ensures
        spec_string(s, pos) matches Ok((_, next)) ==> 0 <= pos <= next <= s.len(),
        forall|t: Seq<u8>|
            #![trigger spec_string(t, pos)]
            spec_string(s, pos) is Ok && is_prefix(t, s) ==> spec_string(t, pos) == cut_short(
                spec_string(s, pos),
                t.len() as int,
            ),
{
    lemma_u32(s, pos);
    assert forall|t: Seq<u8>|
        #![trigger spec_string(t, pos)]
        spec_string(s, pos) is Ok && is_prefix(t, s) implies spec_string(t, pos) == cut_short(
        spec_string(s, pos),
        t.len() as int,
    ) by {
        let n = spec_u32(s, pos)->Ok_0.0;
        let start = pos + 4;
        if start <= t.len() {
            assert(spec_u32(t, pos) == spec_u32(s, pos));
            if start + n <= t.len() {
                assert(t.subrange(start, start + n) == s.subrange(start, start + n));
            }
        }
    }
}

/// Reads one byte at `pos`.
pub fn read_u8(input: &[u8], pos: usize) -> (r: Result<(u8, usize), DecodeError>)
    ensures
        parse_matches(r, spec_u8(input@, pos as int)),
{
    if pos >= input.len() {
        return Err(DecodeError::UnexpectedEnd);
    }
    let rest = slice_subrange(input, pos, input.len());
    match codec_u8(rest) {
        Ok(v) => Ok((v, pos + 1)),
        Err(_) => Err(DecodeError::UnexpectedEnd),
    }
}

/// Reads a little-endian `u32` at `pos`.
pub fn read_u32(input: &[u8], pos: usize) -> (r: Result<(u32, usize), DecodeError>)
    ensures
        parse_matches(r, spec_u32(input@, pos as int)),
{
    if pos > input.len() || input.len() - pos < 4 {
        return Err(DecodeError::UnexpectedEnd);
    }
    let rest = slice_subrange(input, pos, input.len());
    assert(rest@.subrange(0, 4) == input@.subrange(pos as int, pos + 4));
    match codec_u32(rest) {
        Ok(v) => Ok((v, pos + 4)),
        Err(_) => Err(DecodeError::UnexpectedEnd),
    }
}

/// Reads a little-endian `u64` at `pos`.
pub fn read_u64(input: &[u8], pos: usize) -> (r: Result<(u64, usize), DecodeError>)
    ensures
        parse_matches(r, spec_u64(input@, pos as int)),
{
    if pos > input.len() || input.len() - pos < 8 {
        return Err(DecodeError::UnexpectedEnd);
    }
    let rest = slice_subrange(input, pos, input.len());
    assert(rest@.subrange(0, 8) == input@.subrange(pos as int, pos + 8));
    match codec_u64(rest) {
        Ok(v) => Ok((v, pos + 8)),
        Err(_) => Err(DecodeError::UnexpectedEnd),
    }
}

/// Reads thirty-two bytes at `pos`.
pub fn read_bytes32(input: &[u8], pos: usize) -> (r: Result<([u8; 32], usize), DecodeError>)
    ensures
        match spec_bytes32(input@, pos as int) {
            Ok((value, next)) => r is Ok && r->Ok_0.0@ == value && r->Ok_0.1 == next,
            Err(e) => r is Err && r->Err_0 == e,
        },
{
    if pos > input.len() || input.len() - pos < 32 {
        return Err(DecodeError::UnexpectedEnd);
    }
    let rest = slice_subrange(input, pos, input.len());
    assert(rest@.subrange(0, 32) == input@.subrange(pos as int, pos + 32));
    match codec_bytes32(rest) {
        Ok(v) => Ok((v, pos + 32)),
        Err(_) => Err(DecodeError::UnexpectedEnd),
    }
}

/// Reads a string at `pos`.
pub fn read_string(input: &[u8], pos: usize) -> (r: Result<(String, usize), DecodeError>)
    ensures
        parse_matches(r, spec_string(input@, pos as int)),
{
    let (n, start) = match read_u32(input, pos) {
        Ok(x) => x,
        Err(e) => { return Err(e); },
    };
    if input.len() - start < n as usize {
        return Err(DecodeError::UnexpectedEnd);
    }
    let end: usize = start + n as usize;
    let frame = slice_subrange(input, pos, end);
    proof {
        assert(frame@.subrange(0, 4) == input@.subrange(pos as int, pos + 4));
        lemma_le_value_bound(frame@.subrange(0, 4));
        assert(frame@.subrange(4, 4 + n) == input@.subrange(start as int, start + n));
    }
    match codec_string(frame) {
        Ok(text) => Ok((text, end)),
        Err(_) => Err(DecodeError::InvalidText),
    }
}

} // verus!
