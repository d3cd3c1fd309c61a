//! The wire format of the protocol: VarInts and length-prefixed strings,
//! read from a byte iterator and written to a byte vector.

use vstd::prelude::*;
use vstd::std_specs::iter::IteratorSpec;
use vstd::utf8::*;
use vstd::string::StrSliceExecFns;

verus! {

broadcast use vstd::seq_lib::group_seq_properties;

/// One decoded field of a packet.
#[derive(Debug, PartialEq)]
#[allow(non_camel_case_types)]
pub enum NetworkValue {
    Array(Box<[u8]>),
    bool(bool),
    u8(u8),
    u16(u16),
    String(String),
}

/// Calls `Iterator::next` on a byte-slice iterator: it hands out the first
/// pending byte and leaves the rest, or `None` once nothing is pending.
#[verifier::external_body]
fn iter_next(it: &mut std::slice::Iter<'_, u8>) -> (r: Option<u8>)
    ensures
        (*old(it)).remaining().len() > 0 ==> r == Some(*(*old(it)).remaining()[0])
            && (*final(it)).remaining() == (*old(it)).remaining().drop_first(),
        (*old(it)).remaining().len() == 0 ==> r is None && (*final(it)).remaining() == (*old(it)).remaining(),
{
    it.next().copied()
}

/// Calls `ExactSizeIterator::len` on a byte-slice iterator: the number of
/// bytes still pending.
#[verifier::external_body]
pub(crate) fn iter_len(it: &std::slice::Iter<'_, u8>) -> (n: usize)
    ensures
        n == (*it).remaining().len(),
{
    it.len()
}

/// Takes the next byte; the caller guarantees that one is pending.
pub(crate) fn next_byte(buffer: &mut std::slice::Iter<'_, u8>) -> (b: u8)
    requires
        (*old(buffer)).remaining().unref().len() > 0,
    ensures
        b == (*old(buffer)).remaining().unref()[0],
        (*final(buffer)).remaining().unref() == (*old(buffer)).remaining().unref().drop_first(),
{
    let r = iter_next(buffer);
    proof {
        assert((*final(buffer)).remaining().unref() =~= (*old(buffer)).remaining().unref().drop_first());
    }
    r.unwrap()
}

/// Calls `Vec::into_boxed_slice`: the boxed slice holds the vector's bytes.
#[verifier::external_body]
pub(crate) fn boxed_bytes(bytes: Vec<u8>) -> (b: Box<[u8]>)
    ensures
        b@ == bytes@,
{
    bytes.into_boxed_slice()
}

/// Calls `String::from_utf8`: the bytes become a string exactly when they
/// are valid UTF-8, and then the string holds the characters they encode.
#[verifier::external_body]
pub(crate) fn string_from_utf8(bytes: Vec<u8>) -> (r: Option<String>)
    ensures
        r is Some <==> valid_utf8(bytes@),
        r matches Some(s) ==> s@ == decode_utf8(bytes@),
{
    match String::from_utf8(bytes) {
        Ok(s) => Some(s),
        Err(_) => None,
    }
}

// ---------------------------------------------------------------------------
// VarInt
// ---------------------------------------------------------------------------

/// The VarInt encoding of the 32 bits `v`: seven bits per byte, least
/// significant group first, the high bit set on every byte but the last.
pub open spec fn varint_encoding(v: u32) -> Seq<u8>
    decreases v,
{
    if v < 0x80 {
        seq![v as u8]
    } else {
        proof {
            assert(v >= 0x80 ==> v >> 7 < v) by (bit_vector);
        }
        seq![((v & 0x7f) | 0x80) as u8] + varint_encoding(v >> 7)
    }
}

/// The number of bytes that reading a VarInt takes from `s`, counting from
/// the byte at `i`: the reader stops after the first byte without the high
/// bit among the first five; when all five carry it, it takes a sixth byte
/// and drops it.
pub open spec fn varint_len_from(s: Seq<u8>, i: nat) -> nat
    decreases 5 - i,
{
    if i >= 5 {
        6
    } else if s[i as int] < 0x80 {
        i + 1
    } else {
        varint_len_from(s, i + 1)
    }
}

/// The number of bytes that reading a VarInt takes from the front of `s`.
pub open spec fn varint_read_len(s: Seq<u8>) -> nat {
    varint_len_from(s, 0)
}

/// The low seven bits of each of the first `k` bytes of `s`, the byte at
/// `j` shifted by `7 * j`, cut to 32 bits.
pub open spec fn varint_bits(s: Seq<u8>, k: nat) -> u32
    decreases k,
{
    if k == 0 {
        0
    } else {
        varint_bits(s, (k - 1) as nat) | (((s[k - 1] & 0x7f) as u32) << ((7 * (k - 1)) as u32))
    }
}

/// The 32 bits that reading a VarInt from the front of `s` yields.
pub open spec fn varint_read_value(s: Seq<u8>) -> u32 {
    let n = varint_read_len(s);
    varint_bits(s, if n < 5 { n } else { 5 })
}

pub proof fn lemma_varint_len_skip(s: Seq<u8>, i: nat)
    requires
        i <= 5,
        forall|j: int| 0 <= j < i ==> s[j] >= 0x80,
    ensures
        varint_read_len(s) == varint_len_from(s, i),
    decreases i,
{
    if i > 0 {
        lemma_varint_len_skip(s, (i - 1) as nat);
    }
}

pub proof fn lemma_varint_len_bounds(s: Seq<u8>, i: nat)
    requires
        i <= 5,
    ensures
        i + 1 <= varint_len_from(s, i) <= 6,
        i < 5 && s[i as int] >= 0x80 ==> varint_len_from(s, i) >= i + 2,
    decreases 5 - i,
{
    if i < 5 {
        lemma_varint_len_bounds(s, i + 1);
    }
}

/// Reads a VarInt: up to five bytes, seven bits each, least significant
/// group first; bits beyond 32 are dropped.
pub fn read_varint(buffer: &mut std::slice::Iter<'_, u8>) -> (r: Result<i32, &'static str>)
    requires
        varint_read_len((*old(buffer)).remaining().unref()) <= (*old(buffer)).remaining().unref().len(),
    ensures
        r == Ok::<i32, &'static str>(varint_read_value((*old(buffer)).remaining().unref()) as i32),
        (*final(buffer)).remaining().unref() == (*old(buffer)).remaining().unref().skip(
            varint_read_len((*old(buffer)).remaining().unref()) as int,
        ),
{
    let ghost s = (*old(buffer)).remaining().unref();
    proof {
        lemma_varint_len_skip(s, 0);
        lemma_varint_len_bounds(s, 0);
    }
    let mut value: u32 = 0;
    let mut current_byte = next_byte(buffer);
    let mut i: u32 = 0;
    while i < 5
        invariant_except_break
            0 <= i <= 5,
            varint_read_len(s) <= s.len(),
            forall|j: int| 0 <= j < i ==> s[j] >= 0x80,
            varint_read_len(s) == varint_len_from(s, i as nat),
            i < 5 ==> current_byte == s[i as int],
            i < 5 ==> (*buffer).remaining().unref() == s.skip(i + 1),
            i == 5 ==> (*buffer).remaining().unref() == s.skip(6),
            value == varint_bits(s, i as nat),
        ensures
            i < 5 ==> varint_read_len(s) == i + 1,
            i == 5 ==> varint_read_len(s) == 6,
            (*buffer).remaining().unref() == s.skip(varint_read_len(s) as int),
            value == varint_read_value(s),
        decreases 5 - i,
    {
        proof {
            lemma_varint_len_bounds(s, i as nat);
        }
        assert((((current_byte & 0x7f) as u32) << (7 * i)) == (((s[i as int] & 0x7f) as u32) << ((7 * i) as u32)));
        value = value | (((current_byte & 0x7f) as u32) << (7 * i));
        proof {
            lemma_varint_len_bounds(s, i as nat);
        }
        let high = current_byte & 0x80;
        assert(high == 0 <==> current_byte < 0x80) by (bit_vector)
            requires
                high == current_byte & 0x80,
        ;
        if high == 0 {
            break;
        }
        current_byte = next_byte(buffer);
        i = i + 1;
        proof {
            lemma_varint_len_skip(s, i as nat);
            assert((*buffer).remaining().unref() =~= s.skip(i + 1));
        }
    }
    Ok(#[verifier::truncate] (value as i32))
}

/// Appends the VarInt encoding of the 32 bits of `value`.
pub fn write_varint(buffer: &mut Vec<u8>, value: i32)
    ensures
        final(buffer)@ == old(buffer)@ + varint_encoding(value as u32),
{
    if value == 0 {
        buffer.push(0);
        assert(varint_encoding(0) == seq![0u8]);
        return;
    }
    let mut rest: u32 = #[verifier::truncate] (value as u32);
    assert(value as u32 != 0) by (bit_vector) requires value != 0;
    while rest != 0
        invariant
            rest != 0 ==> old(buffer)@ + varint_encoding(value as u32) == buffer@ + varint_encoding(rest),
            rest == 0 ==> old(buffer)@ + varint_encoding(value as u32) == buffer@,
        decreases rest,
    {
        let ghost before = buffer@;
        let ghost r = rest;
        let mut byte: u8 = (rest & 0x7f) as u8;
        rest = rest >> 7;
        if rest != 0 {
            byte = byte | 0x80;
        }
        buffer.push(byte);
        proof {
            assert(rest == r >> 7);
            assert(r >= 0x80 <==> r >> 7 != 0) by (bit_vector);
            assert(r >> 7 < r) by (bit_vector) requires r != 0;
            if r >= 0x80 {
                assert(byte == ((r & 0x7f) | 0x80) as u8) by (bit_vector)
                    requires byte == ((r & 0x7f) as u8) | 0x80;
                assert(varint_encoding(r) == seq![((r & 0x7f) | 0x80) as u8] + varint_encoding(r >> 7));
                assert(buffer@ == before + seq![byte]);
                assert(before + varint_encoding(r) == buffer@ + varint_encoding(rest));
            } else {
                assert(byte == r as u8) by (bit_vector)
                    requires byte == (r & 0x7f) as u8, r < 0x80;
                assert(varint_encoding(r) == seq![r as u8]);
                assert(buffer@ == before + seq![byte]);
            }
        }
    }
}

// ---------------------------------------------------------------------------
// Strings
// ---------------------------------------------------------------------------

/// The length that the VarInt in front of a string announces, taken as a
/// byte count: a length of zero or less announces no bytes.
pub open spec fn string_payload_len(s: Seq<u8>) -> nat {
    let n = varint_read_value(s) as i32;
    if n > 0 {
        n as nat
    } else {
        0
    }
}

/// The number of bytes that reading a string takes from the front of `s`.
pub open spec fn string_read_len(s: Seq<u8>) -> nat {
    varint_read_len(s) + string_payload_len(s)
}

/// The bytes of the string itself, after its length prefix.
pub open spec fn string_payload(s: Seq<u8>) -> Seq<u8> {
    s.subrange(varint_read_len(s) as int, string_read_len(s) as int)
}

/// A string can be read from the front of `s`: all the bytes that its
/// length announces are there, and they are valid UTF-8.
pub open spec fn string_readable(s: Seq<u8>) -> bool {
    &&& string_read_len(s) <= s.len()
    &&& valid_utf8(string_payload(s))
}

/// The encoding of a string: its UTF-8 byte count as a VarInt (the count
/// taken to 32 bits), then its UTF-8 bytes.
pub open spec fn string_encoding(chars: Seq<char>) -> Seq<u8> {
    varint_encoding((encode_utf8(chars).len() as i32) as u32) + encode_utf8(chars)
}

/// Reads a string: a VarInt byte count, then that many bytes of UTF-8.
pub fn read_string(buffer: &mut std::slice::Iter<'_, u8>) -> (r: Result<String, &'static str>)
    requires
        string_readable((*old(buffer)).remaining().unref()),
    ensures
        r matches Ok(text) && text@ == decode_utf8(string_payload((*old(buffer)).remaining().unref())),
        (*final(buffer)).remaining().unref() == (*old(buffer)).remaining().unref().skip(
            string_read_len((*old(buffer)).remaining().unref()) as int,
        ),
{
    let ghost s = (*old(buffer)).remaining().unref();
    let mut length = read_varint(buffer)?;
    let ghost start = varint_read_len(s) as int;
    let ghost total = string_payload_len(s) as int;
    let mut string: Vec<u8> = Vec::new();
    while length > 0
        invariant
            total == (if length > 0 { length as int } else { 0 }) + string@.len(),
            0 <= start,
            start + total <= s.len(),
            string@ == s.subrange(start, start + string@.len()),
            (*buffer).remaining().unref() == s.skip(start + string@.len()),
        decreases length,
    {
        let byte = next_byte(buffer);
        string.push(byte);
        length -= 1;
        proof {
            assert(string@ =~= s.subrange(start, start + string@.len()));
            assert((*buffer).remaining().unref() =~= s.skip(start + string@.len()));
        }
    }
    proof {
        assert(string@ =~= string_payload(s));
    }
    let string = string_from_utf8(string).unwrap();
    Ok(string)
}

/// Appends a string: its UTF-8 byte count as a VarInt, then its bytes.
pub fn write_string(buffer: &mut Vec<u8>, value: String)
    ensures
        final(buffer)@ == old(buffer)@ + string_encoding(value@),
{
    let mut data = value.as_str().as_bytes_vec();
    write_varint(buffer, #[verifier::truncate] (data.len() as i32));
    buffer.append(&mut data);
    proof {
        assert(final(buffer)@ =~= old(buffer)@ + string_encoding(value@));
    }
}

/// Reading a string back from its encoding, with anything after it, takes
/// exactly the encoding and yields the same characters, for every string
/// whose UTF-8 byte count fits the protocol's signed 32-bit length.
pub proof fn lemma_string_roundtrip(chars: Seq<char>, rest: Seq<u8>)
    requires
        encode_utf8(chars).len() <= i32::MAX,
    ensures
        string_readable(string_encoding(chars) + rest),
        string_read_len(string_encoding(chars) + rest) == string_encoding(chars).len(),
        decode_utf8(string_payload(string_encoding(chars) + rest)) == chars,
{
    broadcast use encode_utf8_valid_utf8, encode_utf8_decode_utf8;

    let bytes = encode_utf8(chars);
    let n = bytes.len();
    let prefix = varint_encoding((n as i32) as u32);
    let s = string_encoding(chars) + rest;
    assert(s =~= prefix + (bytes + rest));
    lemma_varint_roundtrip((n as i32) as u32, bytes + rest);
    assert(string_payload_len(s) == n);
    assert(string_payload(s) =~= bytes);
}

/// The encoding of any 32 bits takes one to five bytes; every byte but the
/// last has the high bit set, the last has it clear.
pub proof fn lemma_varint_encoding_shape(v: u32)
    ensures
        1 <= varint_encoding(v).len() <= 5,
        varint_encoding(v).last() < 0x80,
        forall|i: int| 0 <= i < varint_encoding(v).len() - 1 ==> varint_encoding(v)[i] >= 0x80,
    decreases v,
{
    if v < 0x80 {
        assert((v as u8) < 0x80) by (bit_vector) requires v < 0x80;
    } else {
        assert(v >> 7 < v) by (bit_vector) requires v >= 0x80;
        assert(v >> 7 < 0x1000_0000) by (bit_vector);
        assert(((v & 0x7f) | 0x80) as u8 >= 0x80) by (bit_vector);
        lemma_varint_encoding_shape(v >> 7);
        let tail = varint_encoding(v >> 7);
        assert(varint_encoding(v) == seq![((v & 0x7f) | 0x80) as u8] + tail);
        assert forall|i: int| 0 <= i < varint_encoding(v).len() - 1 implies varint_encoding(v)[i] >= 0x80 by {
            if i > 0 {
                assert(varint_encoding(v)[i] == tail[i - 1]);
            }
        }
        if tail.len() == 5 {
            lemma_varint_len_five(v >> 7);
            assert(false);
        }
    }
}

/// Only values of 28 bits or more take five bytes, so the encoding of
/// `v >> 7` never does.
proof fn lemma_varint_len_five(v: u32)
    requires
        varint_encoding(v).len() == 5,
    ensures
        v >= 0x1000_0000,
{
    reveal_with_fuel(varint_encoding, 6);
    assert(v < 0x1000_0000 ==> v < 0x80 || v >> 7 < 0x80 || v >> 7 >> 7 < 0x80 || v >> 7 >> 7 >> 7 < 0x80)
        by (bit_vector);
}

/// Reading a VarInt back from what `write_varint` appended for `value`,
/// with anything after it, takes exactly those bytes and gives `value`.
pub proof fn lemma_write_read_varint(value: i32, rest: Seq<u8>)
    ensures
        varint_read_len(varint_encoding(value as u32) + rest) == varint_encoding(value as u32).len(),
        varint_read_value(varint_encoding(value as u32) + rest) as i32 == value,
{
    lemma_varint_roundtrip(value as u32, rest);
    assert((value as u32) as i32 == value) by (bit_vector);
}

/// Reading a VarInt back from the bytes that encode the 32 bits `v`, with
/// anything after them, takes exactly those bytes and yields `v`.
pub proof fn lemma_varint_roundtrip(v: u32, rest: Seq<u8>)
    ensures
        varint_read_len(varint_encoding(v) + rest) == varint_encoding(v).len(),
        varint_read_value(varint_encoding(v) + rest) == v,
{
    reveal_with_fuel(varint_encoding, 6);
    reveal_with_fuel(varint_len_from, 7);
    reveal_with_fuel(varint_bits, 6);
    let e = varint_encoding(v);
    let s = e + rest;
    let x1 = v >> 7;
    let x2 = x1 >> 7;
    let x3 = x2 >> 7;
    let x4 = x3 >> 7;
    let b0 = ((v & 0x7f) | 0x80) as u8;
    let b1 = ((x1 & 0x7f) | 0x80) as u8;
    let b2 = ((x2 & 0x7f) | 0x80) as u8;
    let b3 = ((x3 & 0x7f) | 0x80) as u8;
    assert(b0 >= 0x80 && b1 >= 0x80 && b2 >= 0x80 && b3 >= 0x80) by (bit_vector)
        requires
            b0 == ((v & 0x7f) | 0x80) as u8,
            b1 == ((x1 & 0x7f) | 0x80) as u8,
            b2 == ((x2 & 0x7f) | 0x80) as u8,
            b3 == ((x3 & 0x7f) | 0x80) as u8,
    ;
    assert(x4 < 0x80) by (bit_vector)
        requires x1 == v >> 7, x2 == x1 >> 7, x3 == x2 >> 7, x4 == x3 >> 7;
    if v < 0x80 {
        assert(e == seq![v as u8]);
        assert(s[0] == v as u8);
        assert((v as u8) < 0x80 && (0u32 | ((((v as u8) & 0x7f) as u32) << 0u32)) == v) by (bit_vector)
            requires v < 0x80;
    } else if x1 < 0x80 {
        assert(e == seq![b0, x1 as u8]);
        assert(s[0] == b0 && s[1] == x1 as u8);
        assert((x1 as u8) < 0x80 && ((0u32 | (((b0 & 0x7f) as u32) << 0u32)) | ((((x1 as u8) & 0x7f) as u32) << 7u32)) == v) by (bit_vector)
            requires x1 == v >> 7, x1 < 0x80, b0 == ((v & 0x7f) | 0x80) as u8;
    } else if x2 < 0x80 {
        assert(e == seq![b0, b1, x2 as u8]);
        assert(s[0] == b0 && s[1] == b1 && s[2] == x2 as u8);
        assert((x2 as u8) < 0x80 && (((0u32 | (((b0 & 0x7f) as u32) << 0u32)) | (((b1 & 0x7f) as u32) << 7u32))
            | ((((x2 as u8) & 0x7f) as u32) << 14u32)) == v) by (bit_vector)
            requires
                x1 == v >> 7, x2 == x1 >> 7, x2 < 0x80,
                b0 == ((v & 0x7f) | 0x80) as u8,
                b1 == ((x1 & 0x7f) | 0x80) as u8,
        ;
    } else if x3 < 0x80 {
        assert(e == seq![b0, b1, b2, x3 as u8]);
        assert(s[0] == b0 && s[1] == b1 && s[2] == b2 && s[3] == x3 as u8);
        assert((x3 as u8) < 0x80 && ((((0u32 | (((b0 & 0x7f) as u32) << 0u32)) | (((b1 & 0x7f) as u32) << 7u32))
            | (((b2 & 0x7f) as u32) << 14u32)) | ((((x3 as u8) & 0x7f) as u32) << 21u32)) == v) by (bit_vector)
            requires
                x1 == v >> 7, x2 == x1 >> 7, x3 == x2 >> 7, x3 < 0x80,
                b0 == ((v & 0x7f) | 0x80) as u8,
                b1 == ((x1 & 0x7f) | 0x80) as u8,
                b2 == ((x2 & 0x7f) | 0x80) as u8,
        ;
    } else {
        assert(e == seq![b0, b1, b2, b3, x4 as u8]);
        assert(s[0] == b0 && s[1] == b1 && s[2] == b2 && s[3] == b3 && s[4] == x4 as u8);
        assert((x4 as u8) < 0x80 && (((((0u32 | (((b0 & 0x7f) as u32) << 0u32)) | (((b1 & 0x7f) as u32) << 7u32))
            | (((b2 & 0x7f) as u32) << 14u32)) | (((b3 & 0x7f) as u32) << 21u32))
            | ((((x4 as u8) & 0x7f) as u32) << 28u32)) == v) by (bit_vector)
            requires
                x1 == v >> 7, x2 == x1 >> 7, x3 == x2 >> 7, x4 == x3 >> 7,
                b0 == ((v & 0x7f) | 0x80) as u8,
                b1 == ((x1 & 0x7f) | 0x80) as u8,
                b2 == ((x2 & 0x7f) | 0x80) as u8,
                b3 == ((x3 & 0x7f) | 0x80) as u8,
        ;
    }
}

} // verus!
