//! What holds between the two directions of the primitive codec: reading what
//! was written gives back the value, whatever follows it in the input.

use vstd::prelude::*;
use vstd::utf8::*;
use crate::mqttio::errors::Error;
use crate::mqttio::io::{MAX_VARUINT32, MAX_DATA_LEN, bool_bytes, u8_bytes, u16_bytes, u32_bytes, varuint_bytes, varuint32_size, binary_bytes, utf8_string_bytes, key_value_pair_bytes, allowed_chars, parse_u8, parse_bool, parse_u16, parse_u32, parse_varuint, parse_varuint32, parse_binary, parse_utf8_string, parse_key_value_pair, reads, varuint_multiplier};

verus! {

/// A boolean that was written reads back as itself, from one byte.
pub proof fn lemma_bool_roundtrip(v: bool, rest: Seq<u8>)
    ensures
        parse_bool(bool_bytes(v) + rest) == Ok::<(bool, nat), Error>((v, 1)),
{
}

/// A byte that was written reads back as itself.
pub proof fn lemma_u8_roundtrip(v: u8, rest: Seq<u8>)
    ensures
        parse_u8(u8_bytes(v) + rest) == Ok::<(u8, nat), Error>((v, 1)),
{
}

/// A 16-bit integer that was written reads back as itself, from two bytes.
pub proof fn lemma_u16_roundtrip(v: u16, rest: Seq<u8>)
    ensures
        parse_u16(u16_bytes(v) + rest) == Ok::<(u16, nat), Error>((v, 2)),
{
    let s = u16_bytes(v) + rest;
    assert(s[0] == (v / 0x100) as u8 && s[1] == (v % 0x100) as u8);
}

/// A 32-bit integer that was written reads back as itself, from four bytes.
pub proof fn lemma_u32_roundtrip(v: u32, rest: Seq<u8>)
    ensures
        parse_u32(u32_bytes(v) + rest) == Ok::<(u32, nat), Error>((v, 4)),
{
    let s = u32_bytes(v) + rest;
    assert(s[0] == (v / 0x100_0000) as u8 && s[1] == (v / 0x1_0000 % 0x100) as u8 && s[2] == (v
        / 0x100 % 0x100) as u8 && s[3] == (v % 0x100) as u8);
}

/// The wire form of a variable-length integer has one byte for each started
/// group of seven bits of the number, and one byte for zero.
pub proof fn lemma_varuint_bytes_len(v: u32)
    ensures
        varuint_bytes(v as nat).len() == varuint32_size(v),
    decreases v,
{
    if v >= 0x80 {
        lemma_varuint_bytes_len(v / 0x80);
    }
}

/// A number written as a variable-length integer reads back as itself from
/// exactly the bytes written, where the reader may take that many bytes.
pub proof fn lemma_varuint_roundtrip(v: nat, limit: nat, rest: Seq<u8>)
    requires
        varuint_bytes(v).len() <= limit,
    ensures
        parse_varuint(varuint_bytes(v) + rest, limit) == Ok::<(nat, nat), Error>(
            (v, varuint_bytes(v).len()),
        ),
    decreases v,
{
    let s = varuint_bytes(v) + rest;
    if v < 0x80 {
        assert(s[0] == v as u8);
    } else {
        lemma_varuint_roundtrip(v / 0x80, (limit - 1) as nat, rest);
        assert(s[0] == (v % 0x80 + 0x80) as u8);
        assert(s.skip(1) =~= varuint_bytes(v / 0x80) + rest);
    }
}

/// Every number up to the largest one reads back as itself after it was
/// written as a variable-length integer, from as many bytes as its size says.
pub proof fn lemma_varuint32_roundtrip(v: u32, rest: Seq<u8>)
    requires
        v <= MAX_VARUINT32,
    ensures
        parse_varuint32(varuint_bytes(v as nat) + rest) == Ok::<(u32, nat), Error>(
            (v, varuint32_size(v)),
        ),
{
    lemma_varuint_bytes_len(v);
    lemma_varuint_roundtrip(v as nat, 4, rest);
}

/// A variable-length integer never reads more than four bytes, and what it
/// reads is at most the largest number.
pub proof fn lemma_parse_varuint32_bounds(s: Seq<u8>)
    ensures
        parse_varuint32(s) matches Ok((v, n)) ==> 1 <= n <= 4 && n <= s.len() && v
            <= MAX_VARUINT32,
{
    lemma_parse_varuint_bounds(s, 4);
}

/// A variable-length integer of at most `limit` bytes reads at most that many
/// bytes, and what it reads has at most seven bits for each of them.
pub proof fn lemma_parse_varuint_bounds(s: Seq<u8>, limit: nat)
    requires
        limit <= 4,
    ensures
        parse_varuint(s, limit) matches Ok((v, n)) ==> 1 <= n <= limit && n <= s.len() && v
            < varuint_multiplier(n),
    decreases limit,
{
    if limit > 0 && s.len() >= 1 && s[0] >= 0x80 {
        lemma_parse_varuint_bounds(s.skip(1), (limit - 1) as nat);
    }
}

/// Binary data of at most 65535 bytes that was written reads back as itself.
pub proof fn lemma_binary_roundtrip(data: Seq<u8>, rest: Seq<u8>)
    requires
        data.len() <= MAX_DATA_LEN,
    ensures
        parse_binary(binary_bytes(data) + rest) == Ok::<(Seq<u8>, nat), Error>(
            (data, (2 + data.len()) as nat),
        ),
{
    let s = binary_bytes(data) + rest;
    let n = data.len() as u16;
    assert(s[0] == (n / 0x100) as u8 && s[1] == (n % 0x100) as u8);
    assert(s.subrange(2, 2 + n) =~= data);
}

/// Text without a forbidden code point, whose UTF-8 form has at most 65535
/// bytes, reads back as itself after it was written.
pub proof fn lemma_utf8_string_roundtrip(text: Seq<char>, rest: Seq<u8>)
    requires
        allowed_chars(text),
        encode_utf8(text).len() <= MAX_DATA_LEN,
    ensures
        parse_utf8_string(utf8_string_bytes(text) + rest) == Ok::<(Seq<char>, nat), Error>(
            (text, (2 + encode_utf8(text).len()) as nat),
        ),
{
    lemma_binary_roundtrip(encode_utf8(text), rest);
    encode_utf8_valid_utf8(text);
    encode_utf8_decode_utf8(text);
}

/// Text that holds a forbidden code point is refused when it is read, however
/// short it is.
pub proof fn lemma_forbidden_text_is_refused(text: Seq<char>, rest: Seq<u8>)
    requires
        !allowed_chars(text),
        encode_utf8(text).len() <= MAX_DATA_LEN,
    ensures
        parse_utf8_string(utf8_string_bytes(text) + rest) == Err::<(Seq<char>, nat), Error>(
            Error::InvalidUTF8String,
        ),
{
    lemma_binary_roundtrip(encode_utf8(text), rest);
    encode_utf8_valid_utf8(text);
    encode_utf8_decode_utf8(text);
}

/// A name and its value read back as themselves after they were written.
pub proof fn lemma_key_value_pair_roundtrip(key: Seq<char>, value: Seq<char>, rest: Seq<u8>)
    requires
        allowed_chars(key),
        allowed_chars(value),
        encode_utf8(key).len() <= MAX_DATA_LEN,
        encode_utf8(value).len() <= MAX_DATA_LEN,
    ensures
        parse_key_value_pair(key_value_pair_bytes(key, value) + rest) == Ok::<
            ((Seq<char>, Seq<char>), nat),
            Error,
        >(((key, value), (4 + encode_utf8(key).len() + encode_utf8(value).len()) as nat)),
{
    let s = key_value_pair_bytes(key, value) + rest;
    let first = utf8_string_bytes(key);
    let second = utf8_string_bytes(value);
    assert(s =~= first + (second + rest));
    lemma_utf8_string_roundtrip(key, second + rest);
    assert(s.skip(first.len() as int) =~= second + rest);
    lemma_utf8_string_roundtrip(value, rest);
}

} // verus!
