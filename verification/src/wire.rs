//! The primitive encodings: little-endian integers, one-byte flags and
//! length-prefixed UTF-8 strings.
//!
//! Each encoding is given as a pair of spec functions, one from a value to
//! its bytes and one that reads a value off the front of a byte sequence and
//! returns it with the bytes that follow. The executable functions below them
//! are proved against these.

use vstd::prelude::*;
use vstd::slice::slice_subrange;
use vstd::utf8::*;

verus! {

/// The number that `bytes` spell in base 256, least significant byte first.
pub open spec fn le_value(bytes: Seq<u8>) -> nat
    decreases bytes.len(),
{
    if bytes.len() == 0 {
        0
    } else {
        bytes[0] as nat + 256 * le_value(bytes.drop_first())
    }
}

/// The `width` lowest base-256 digits of `value`, least significant first.
pub open spec fn le_bytes(value: nat, width: nat) -> Seq<u8>
    decreases width,
{
    if width == 0 {
        Seq::empty()
    } else {
        seq![(value % 256) as u8] + le_bytes(value / 256, (width - 1) as nat)
    }
}

/// Whether `value` can be written with `width` base-256 digits.
pub open spec fn le_fits(value: nat, width: nat) -> bool
    decreases width,
{
    if width == 0 {
        value == 0
    } else {
        le_fits(value / 256, (width - 1) as nat)
    }
}

/// `le_bytes` yields exactly `width` bytes.
pub proof fn lemma_le_bytes_len(value: nat, width: nat)
    ensures
        le_bytes(value, width).len() == width,
    decreases width,
{
    if width > 0 {
        lemma_le_bytes_len(value / 256, (width - 1) as nat);
    }
}

/// Reading back the digits of a value that fits gives the value.
pub proof fn lemma_le_value_of_bytes(value: nat, width: nat)
    requires
        le_fits(value, width),
    ensures
        le_value(le_bytes(value, width)) == value,
    decreases width,
{
    if width > 0 {
        let tail = le_bytes(value / 256, (width - 1) as nat);
        lemma_le_value_of_bytes(value / 256, (width - 1) as nat);
        assert(le_bytes(value, width).drop_first() =~= tail);
    }
}

/// Writing the number that some bytes spell gives those bytes back, and the
/// number fits in as many digits as there were bytes.
pub proof fn lemma_le_bytes_of_value(bytes: Seq<u8>)
    ensures
        le_bytes(le_value(bytes), bytes.len()) == bytes,
        le_fits(le_value(bytes), bytes.len()),
    decreases bytes.len(),
{
    if bytes.len() > 0 {
        let tail = bytes.drop_first();
        lemma_le_bytes_of_value(tail);
        let v = le_value(bytes);
        assert(v % 256 == bytes[0] as nat);
        assert(v / 256 == le_value(tail));
        assert(le_bytes(v, bytes.len()) =~= bytes);
    } else {
        assert(le_bytes(0, 0) =~= bytes);
    }
}

/// Four digits hold exactly the values below 2^32, eight those below 2^64.
pub proof fn lemma_le_fits_word(value: nat)
    ensures
        le_fits(value, 4) <==> value <= u32::MAX,
        le_fits(value, 8) <==> value <= u64::MAX,
{
    reveal_with_fuel(le_fits, 9);
}

/// Four bytes spell the sum of their digits weighted by powers of 256.
pub proof fn lemma_le_value_4(b: Seq<u8>)
    requires
        b.len() == 4,
    ensures
        le_value(b) == b[0] + 256 * b[1] + 65536 * b[2] + 16777216 * b[3],
        le_value(b) <= u32::MAX,
{
    let b1 = b.drop_first();
    let b2 = b1.drop_first();
    let b3 = b2.drop_first();
    let b4 = b3.drop_first();
    assert(le_value(b4) == 0);
    assert(le_value(b3) == b[3] as nat);
    assert(le_value(b2) == b[2] + 256 * b[3]);
    assert(le_value(b1) == b[1] + 256 * (b[2] + 256 * b[3]));
}

/// Eight bytes spell the sum of their digits weighted by powers of 256.
pub proof fn lemma_le_value_8(b: Seq<u8>)
    requires
        b.len() == 8,
    ensures
        le_value(b) == le_value(b.take(4)) + 4294967296 * le_value(b.skip(4)),
        le_value(b) <= u64::MAX,
{
    let lo = b.take(4);
    let hi = b.skip(4);
    lemma_le_value_4(lo);
    lemma_le_value_4(hi);
    let b1 = b.drop_first();
    let b2 = b1.drop_first();
    let b3 = b2.drop_first();
    let b4 = b3.drop_first();
    assert(b4 =~= hi);
    assert(le_value(b3) == b[3] + 256 * le_value(hi));
    assert(le_value(b2) == b[2] + 256 * le_value(b3));
    assert(le_value(b1) == b[1] + 256 * le_value(b2));
    assert(le_value(b) == b[0] + 256 * le_value(b1));
}

/// A 32-bit little-endian integer at the front of `buf`, and what follows it.
pub open spec fn parse_u32(buf: Seq<u8>) -> Option<(u32, Seq<u8>)> {
    if buf.len() >= 4 {
        Some((le_value(buf.take(4)) as u32, buf.skip(4)))
    } else {
        None
    }
}

/// A 64-bit little-endian integer at the front of `buf`, and what follows it.
pub open spec fn parse_u64(buf: Seq<u8>) -> Option<(u64, Seq<u8>)> {
    if buf.len() >= 8 {
        Some((le_value(buf.take(8)) as u64, buf.skip(8)))
    } else {
        None
    }
}

/// The one-byte encoding of a flag.
pub open spec fn bool_bytes(flag: bool) -> Seq<u8> {
    seq![if flag { 1u8 } else { 0u8 }]
}

/// A flag at the front of `buf`, and what follows it. Only the bytes 0 and 1
/// are flags.
pub open spec fn parse_bool(buf: Seq<u8>) -> Option<(bool, Seq<u8>)> {
    if buf.len() >= 1 && buf[0] <= 1 {
        Some((buf[0] == 1, buf.skip(1)))
    } else {
        None
    }
}

/// The encoding of a string: the length of its UTF-8 form as a 32-bit
/// little-endian integer, then the UTF-8 bytes.
pub open spec fn string_bytes(s: Seq<char>) -> Seq<u8> {
    le_bytes(encode_utf8(s).len(), 4) + encode_utf8(s)
}

/// Whether a string has an encoding: its UTF-8 form must be short enough for
/// the length prefix.
pub open spec fn string_fits(s: Seq<char>) -> bool {
    encode_utf8(s).len() <= u32::MAX
}

/// A string at the front of `buf`, and what follows it. The length prefix
/// must be whole, the announced bytes must all be there, and they must be
/// valid UTF-8.
pub open spec fn parse_string(buf: Seq<u8>) -> Option<(Seq<char>, Seq<u8>)> {
    if buf.len() >= 4 {
        let end = 4 + le_value(buf.take(4));
        if end <= buf.len() && valid_utf8(buf.subrange(4, end as int)) {
            Some((decode_utf8(buf.subrange(4, end as int)), buf.skip(end as int)))
        } else {
            None
        }
    } else {
        None
    }
}

/// Reading an encoded 32-bit integer gives it back, whatever follows.
pub proof fn lemma_parse_u32_of_bytes(value: u32, rest: Seq<u8>)
    ensures
        parse_u32(le_bytes(value as nat, 4) + rest) == Some((value, rest)),
{
    let head = le_bytes(value as nat, 4);
    let buf = head + rest;
    lemma_le_bytes_len(value as nat, 4);
    lemma_le_fits_word(value as nat);
    lemma_le_value_of_bytes(value as nat, 4);
    assert(buf.take(4) =~= head);
    assert(buf.skip(4) =~= rest);
}

/// Reading an encoded 64-bit integer gives it back, whatever follows.
pub proof fn lemma_parse_u64_of_bytes(value: u64, rest: Seq<u8>)
    ensures
        parse_u64(le_bytes(value as nat, 8) + rest) == Some((value, rest)),
{
    let head = le_bytes(value as nat, 8);
    let buf = head + rest;
    lemma_le_bytes_len(value as nat, 8);
    lemma_le_fits_word(value as nat);
    lemma_le_value_of_bytes(value as nat, 8);
    assert(buf.take(8) =~= head);
    assert(buf.skip(8) =~= rest);
}

/// Reading an encoded flag gives it back, whatever follows.
pub proof fn lemma_parse_bool_of_bytes(flag: bool, rest: Seq<u8>)
    ensures
        parse_bool(bool_bytes(flag) + rest) == Some((flag, rest)),
{
    let buf = bool_bytes(flag) + rest;
    assert(buf.skip(1) =~= rest);
}

/// Reading an encoded string gives it back, whatever follows.
pub proof fn lemma_parse_string_of_bytes(s: Seq<char>, rest: Seq<u8>)
    requires
        string_fits(s),
    ensures
        parse_string(string_bytes(s) + rest) == Some((s, rest)),
{
    let payload = encode_utf8(s);
    let prefix = le_bytes(payload.len(), 4);
    let buf = string_bytes(s) + rest;
    lemma_le_bytes_len(payload.len(), 4);
    lemma_le_fits_word(payload.len());
    lemma_le_value_of_bytes(payload.len(), 4);
    assert(buf.take(4) =~= prefix);
    let end = 4 + payload.len();
    assert(buf.subrange(4, end as int) =~= payload);
    assert(buf.skip(end as int) =~= rest);
    encode_utf8_valid_utf8(s);
    encode_utf8_decode_utf8(s);
}

/// What was read as a 32-bit integer is the encoding of that integer.
pub proof fn lemma_bytes_of_parse_u32(buf: Seq<u8>)
    ensures
        parse_u32(buf) matches Some((value, rest)) ==> buf == le_bytes(value as nat, 4) + rest,
{
    if buf.len() < 4 {
        return ;
    }
    let head = buf.take(4);
    lemma_le_bytes_of_value(head);
    lemma_le_value_4(head);
    assert(buf =~= head + buf.skip(4));
}

/// What was read as a 64-bit integer is the encoding of that integer.
pub proof fn lemma_bytes_of_parse_u64(buf: Seq<u8>)
    ensures
        parse_u64(buf) matches Some((value, rest)) ==> buf == le_bytes(value as nat, 8) + rest,
{
    if buf.len() < 8 {
        return ;
    }
    let head = buf.take(8);
    lemma_le_bytes_of_value(head);
    lemma_le_value_8(head);
    assert(buf =~= head + buf.skip(8));
}

/// What was read as a flag is the encoding of that flag.
pub proof fn lemma_bytes_of_parse_bool(buf: Seq<u8>)
    ensures
        parse_bool(buf) matches Some((flag, rest)) ==> buf == bool_bytes(flag) + rest,
{
    if parse_bool(buf) is Some {
        assert(buf =~= bool_bytes(buf[0] == 1) + buf.skip(1));
    }
}

/// What was read as a string is the encoding of that string, and the string
/// has an encoding.
pub proof fn lemma_bytes_of_parse_string(buf: Seq<u8>)
    ensures
        parse_string(buf) matches Some((s, rest)) ==> string_fits(s) && buf == string_bytes(s)
            + rest,
{
    if parse_string(buf) is Some {
        let head = buf.take(4);
        let end = 4 + le_value(head);
        let payload = buf.subrange(4, end as int);
        lemma_le_bytes_of_value(head);
        lemma_le_value_4(head);
        decode_utf8_encode_utf8(payload);
        assert(buf =~= head + payload + buf.skip(end as int));
    }
}

/// The error type of borsh's readers, which in a build with `std` is
/// `std::io::Error`. Nothing is read from it: any such error means that the
/// bytes did not parse.
#[verifier::external_type_specification]
#[verifier::external_body]
pub struct ExIoError(std::io::Error);

/// Calls borsh's `BorshDeserialize::deserialize` for `String` on `buf`.
///
/// The contract claims what borsh's reader does with a byte slice: it takes a
/// 32-bit little-endian length, then that many bytes, and turns them into a
/// `String` if they are valid UTF-8. On success the returned slice is what
/// follows the string in `buf`. It fails if the slice is too short for the
/// length or for the announced bytes, or if those bytes are not valid UTF-8.
#[verifier::external_body]
fn borsh_take_string<'a>(buf: &'a [u8]) -> (r: Result<(String, &'a [u8]), std::io::Error>)
    ensures
        match r {
            Ok((s, rest)) => parse_string(buf@) == Some((s@, rest@)),
            Err(_) => parse_string(buf@) is None,
        },
{
    let mut rest: &'a [u8] = buf;
    let s: String = borsh::BorshDeserialize::deserialize(&mut rest)?;
    Ok((s, rest))
}

/// Reads a string off the front of `buf`.
pub fn take_string<'a>(buf: &'a [u8]) -> (r: Option<(String, &'a [u8])>)
    ensures
        match r {
            Some((s, rest)) => parse_string(buf@) == Some((s@, rest@)),
            None => parse_string(buf@) is None,
        },
{
    match borsh_take_string(buf) {
        Ok(found) => Some(found),
        Err(_) => None,
    }
}

/// Reads a 32-bit little-endian integer off the front of `buf`.
pub fn take_u32<'a>(buf: &'a [u8]) -> (r: Option<(u32, &'a [u8])>)
    ensures
        match r {
            Some((value, rest)) => parse_u32(buf@) == Some((value, rest@)),
            None => parse_u32(buf@) is None,
        },
{
    if buf.len() < 4 {
        return None;
    }
    let b0: u32 = buf[0] as u32;
    let b1: u32 = buf[1] as u32;
    let b2: u32 = buf[2] as u32;
    let b3: u32 = buf[3] as u32;
    proof {
        lemma_le_value_4(buf@.take(4));
    }
    let value: u32 = b0 + 256 * b1 + 65536 * b2 + 16777216 * b3;
    let rest = slice_subrange(buf, 4, buf.len());
    Some((value, rest))
}

/// Reads a 64-bit little-endian integer off the front of `buf`.
pub fn take_u64<'a>(buf: &'a [u8]) -> (r: Option<(u64, &'a [u8])>)
    ensures
        match r {
            Some((value, rest)) => parse_u64(buf@) == Some((value, rest@)),
            None => parse_u64(buf@) is None,
        },
{
    if buf.len() < 8 {
        return None;
    }
    let b0: u64 = buf[0] as u64;
    let b1: u64 = buf[1] as u64;
    let b2: u64 = buf[2] as u64;
    let b3: u64 = buf[3] as u64;
    let b4: u64 = buf[4] as u64;
    let b5: u64 = buf[5] as u64;
    let b6: u64 = buf[6] as u64;
    let b7: u64 = buf[7] as u64;
    proof {
        let word = buf@.take(8);
        lemma_le_value_8(word);
        lemma_le_value_4(word.take(4));
        lemma_le_value_4(word.skip(4));
    }
    let lo: u64 = b0 + 256 * b1 + 65536 * b2 + 16777216 * b3;
    let hi: u64 = b4 + 256 * b5 + 65536 * b6 + 16777216 * b7;
    let value: u64 = lo + 4294967296 * hi;
    let rest = slice_subrange(buf, 8, buf.len());
    Some((value, rest))
}

/// Reads a flag off the front of `buf`.
pub fn take_bool<'a>(buf: &'a [u8]) -> (r: Option<(bool, &'a [u8])>)
    ensures
        match r {
            Some((flag, rest)) => parse_bool(buf@) == Some((flag, rest@)),
            None => parse_bool(buf@) is None,
        },
{
    if buf.len() < 1 {
        return None;
    }
    let b: u8 = buf[0];
    if b > 1 {
        return None;
    }
    let rest = slice_subrange(buf, 1, buf.len());
    Some((b == 1, rest))
}

/// Appends the encoding of a 32-bit integer to `out`.
pub fn put_u32(out: &mut Vec<u8>, value: u32)
    ensures
        final(out)@ == old(out)@ + le_bytes(value as nat, 4),
{
    let d0: u32 = value;
    let d1: u32 = d0 / 256;
    let d2: u32 = d1 / 256;
    let d3: u32 = d2 / 256;
    out.push((d0 % 256) as u8);
    out.push((d1 % 256) as u8);
    out.push((d2 % 256) as u8);
    out.push((d3 % 256) as u8);
    proof {
        reveal_with_fuel(le_bytes, 5);
        assert(out@ =~= old(out)@ + le_bytes(value as nat, 4));
    }
}

/// Appends the encoding of a 64-bit integer to `out`.
pub fn put_u64(out: &mut Vec<u8>, value: u64)
    ensures
        final(out)@ == old(out)@ + le_bytes(value as nat, 8),
{
    let mut digits: u64 = value;
    let mut written: usize = 0;
    while written < 8
        invariant
            written <= 8,
            out@.len() == old(out)@.len() + written,
            old(out)@ + le_bytes(value as nat, 8) == out@ + le_bytes(
                digits as nat,
                (8 - written) as nat,
            ),
        decreases 8 - written,
    {
        let ghost before = out@;
        out.push((digits % 256) as u8);
        proof {
            let width = (8 - written) as nat;
            assert(le_bytes(digits as nat, width) == seq![(digits % 256) as u8] + le_bytes(
                digits as nat / 256,
                (width - 1) as nat,
            ));
            assert(before + le_bytes(digits as nat, width) =~= out@ + le_bytes(
                digits as nat / 256,
                (width - 1) as nat,
            ));
        }
        digits = digits / 256;
        written = written + 1;
    }
    proof {
        assert(le_bytes(digits as nat, 0) =~= Seq::<u8>::empty());
        assert(out@ + Seq::<u8>::empty() =~= out@);
    }
}

/// Appends the encoding of a flag to `out`.
pub fn put_bool(out: &mut Vec<u8>, flag: bool)
    ensures
        final(out)@ == old(out)@ + bool_bytes(flag),
{
    out.push(if flag { 1u8 } else { 0u8 });
    proof {
        assert(out@ =~= old(out)@ + bool_bytes(flag));
    }
}

/// Appends the encoding of a string to `out`, if the string has one.
///
/// Returns whether it did. A string whose UTF-8 form is too long for the
/// length prefix has no encoding, and `out` is then left as it was.
pub fn put_string(out: &mut Vec<u8>, s: &str) -> (written: bool)
    ensures
        written == string_fits(s@),
        written ==> final(out)@ == old(out)@ + string_bytes(s@),
        !written ==> final(out)@ == old(out)@,
{
    let bytes = s.as_bytes();
    let n: usize = bytes.len();
    if n > u32::MAX as usize {
        return false;
    }
    put_u32(out, n as u32);
    let ghost start = out@;
    let mut i: usize = 0;
    while i < n
        invariant
            i <= n,
            n == bytes@.len(),
            out@ == start + bytes@.take(i as int),
        decreases n - i,
    {
        out.push(bytes[i]);
        proof {
            assert(out@ =~= start + bytes@.take(i + 1));
        }
        i = i + 1;
    }
    proof {
        assert(bytes@.take(n as int) =~= bytes@);
        assert(out@ =~= old(out)@ + string_bytes(s@));
    }
    true
}

} // verus!
