//! The primitive codec: booleans, fixed-width integers, variable-length integers,
//! length-prefixed binary data and text, each as a byte-level model and as
//! operations of a [`Reader`] or a [`Writer`] that follow the model.

use vstd::prelude::*;
use vstd::utf8::*;
use crate::mqttio::errors::Error;

verus! {

/// A name and its value, as a user property carries them.
pub type KeyValuePair = (String, String);

/// The largest number that a variable-length integer can carry.
pub const MAX_VARUINT32: u32 = 268435455;

/// The multiplier that a variable-length integer reaches when its fourth byte
/// asks for a fifth.
pub const VARUINT32_OVERRUN: u32 = 268435456;

/// The longest text or binary value that a two-byte length prefix can announce.
pub const MAX_DATA_LEN: usize = 65535;

/// The wire form of a boolean: one byte, 1 for true and 0 for false.
pub open spec fn bool_bytes(v: bool) -> Seq<u8> {
    seq![if v { 1u8 } else { 0u8 }]
}

/// The wire form of a byte.
pub open spec fn u8_bytes(v: u8) -> Seq<u8> {
    seq![v]
}

/// The wire form of a 16-bit integer: two bytes, the high one first.
pub open spec fn u16_bytes(v: u16) -> Seq<u8> {
    seq![(v / 0x100) as u8, (v % 0x100) as u8]
}

/// The wire form of a 32-bit integer: four bytes, the highest first.
pub open spec fn u32_bytes(v: u32) -> Seq<u8> {
    seq![
        (v / 0x100_0000) as u8,
        (v / 0x1_0000 % 0x100) as u8,
        (v / 0x100 % 0x100) as u8,
        (v % 0x100) as u8,
    ]
}

/// The wire form of a variable-length integer: seven bits per byte, the lowest
/// seven first, the high bit set on every byte but the last.
pub open spec fn varuint_bytes(v: nat) -> Seq<u8>
    decreases v,
{
    if v < 0x80 {
        seq![v as u8]
    } else {
        seq![(v % 0x80 + 0x80) as u8] + varuint_bytes(v / 0x80)
    }
}

/// The number of bytes that a variable-length integer takes: one for each
/// started group of seven bits, and one for zero.
pub open spec fn varuint32_size(v: u32) -> nat {
    if v < 0x80 {
        1
    } else if v < 0x4000 {
        2
    } else if v < 0x20_0000 {
        3
    } else if v < 0x1000_0000 {
        4
    } else {
        5
    }
}

/// The wire form of binary data: its length in two bytes, then the data.
pub open spec fn binary_bytes(data: Seq<u8>) -> Seq<u8> {
    u16_bytes(data.len() as u16) + data
}

/// The wire form of text: the length of its UTF-8 form in two bytes, then that form.
pub open spec fn utf8_string_bytes(text: Seq<char>) -> Seq<u8> {
    binary_bytes(encode_utf8(text))
}

/// The wire form of a name and its value: one text after the other.
pub open spec fn key_value_pair_bytes(key: Seq<char>, value: Seq<char>) -> Seq<u8> {
    utf8_string_bytes(key) + utf8_string_bytes(value)
}

/// A code point that text on the wire must not hold: a control character of
/// U+0000..=U+001F or of U+007F..=U+009F.
pub open spec fn is_forbidden_char(c: char) -> bool {
    c as u32 <= 0x1f || (0x7f <= c as u32 && c as u32 <= 0x9f)
}

/// Text without a forbidden code point.
pub open spec fn allowed_chars(text: Seq<char>) -> bool {
    forall|i: int| 0 <= i < text.len() ==> !is_forbidden_char(#[trigger] text[i])
}

/// Reading a byte: the first byte of the input, if there is one.
pub open spec fn parse_u8(s: Seq<u8>) -> Result<(u8, nat), Error> {
    if s.len() < 1 {
        Err(Error::MalformedPacket)
    } else {
        Ok((s[0], 1))
    }
}

/// Reading a boolean: one byte, true unless it is zero.
pub open spec fn parse_bool(s: Seq<u8>) -> Result<(bool, nat), Error> {
    if s.len() < 1 {
        Err(Error::MalformedPacket)
    } else {
        Ok((s[0] != 0, 1))
    }
}

/// Reading a 16-bit integer: two bytes, the high one first.
pub open spec fn parse_u16(s: Seq<u8>) -> Result<(u16, nat), Error> {
    if s.len() < 2 {
        Err(Error::MalformedPacket)
    } else {
        Ok(((s[0] * 0x100 + s[1]) as u16, 2))
    }
}

/// Reading a 32-bit integer: four bytes, the highest first.
pub open spec fn parse_u32(s: Seq<u8>) -> Result<(u32, nat), Error> {
    if s.len() < 4 {
        Err(Error::MalformedPacket)
    } else {
        Ok(((s[0] * 0x100_0000 + s[1] * 0x1_0000 + s[2] * 0x100 + s[3]) as u32, 4))
    }
}

/// Reading a variable-length integer of at most `limit` bytes. Each byte gives
/// seven bits, the lowest first; a set high bit asks for one more byte. The
/// input may end early (malformed packet), or the last allowed byte may ask for
/// another (length error).
pub open spec fn parse_varuint(s: Seq<u8>, limit: nat) -> Result<(nat, nat), Error>
    decreases limit,
{
    if limit == 0 {
        Err(Error::InvalidVarUint32Length(VARUINT32_OVERRUN))
    } else if s.len() < 1 {
        Err(Error::MalformedPacket)
    } else if s[0] < 0x80 {
        Ok((s[0] as nat, 1))
    } else {
        match parse_varuint(s.skip(1), (limit - 1) as nat) {
            Ok((rest, n)) => Ok(((s[0] - 0x80 + 0x80 * rest) as nat, n + 1)),
            Err(e) => Err(e),
        }
    }
}

/// Reading a variable-length integer: at most four bytes.
pub open spec fn parse_varuint32(s: Seq<u8>) -> Result<(u32, nat), Error> {
    match parse_varuint(s, 4) {
        Ok((v, n)) => Ok((v as u32, n)),
        Err(e) => Err(e),
    }
}

/// Reading binary data: a 16-bit length, then that many bytes.
pub open spec fn parse_binary(s: Seq<u8>) -> Result<(Seq<u8>, nat), Error> {
    if s.len() < 2 {
        Err(Error::MalformedPacket)
    } else {
        let len = s[0] * 0x100 + s[1];
        if s.len() < 2 + len {
            Err(Error::MalformedPacket)
        } else {
            Ok((s.subrange(2, 2 + len), (2 + len) as nat))
        }
    }
}

/// Reading text: binary data that is well-formed UTF-8 and holds no forbidden code point.
pub open spec fn parse_utf8_string(s: Seq<u8>) -> Result<(Seq<char>, nat), Error> {
    match parse_binary(s) {
        Err(e) => Err(e),
        Ok((data, n)) => if valid_utf8(data) && allowed_chars(decode_utf8(data)) {
            Ok((decode_utf8(data), n))
        } else {
            Err(Error::InvalidUTF8String)
        },
    }
}

/// Reading a name and its value: one text after the other.
pub open spec fn parse_key_value_pair(s: Seq<u8>) -> Result<((Seq<char>, Seq<char>), nat), Error> {
    match parse_utf8_string(s) {
        Err(e) => Err(e),
        Ok((key, n)) => match parse_utf8_string(s.skip(n as int)) {
            Err(e) => Err(e),
            Ok((value, m)) => Ok(((key, value), n + m)),
        },
    }
}

/// Reading exactly `len` bytes.
pub open spec fn parse_exact(s: Seq<u8>, len: nat) -> Result<(Seq<u8>, nat), Error> {
    if s.len() < len {
        Err(Error::MalformedPacket)
    } else {
        Ok((s.take(len as int), len))
    }
}

/// What a source of bytes holds: all of its bytes, and those of them that
/// have not been read yet, which are the last of them.
pub struct Source {
    /// All the bytes of the source, read or not.
    pub input: Seq<u8>,
    /// The bytes that have not been read yet.
    pub remaining: Seq<u8>,
}

impl Source {
    /// The bytes that lie behind the reader: what was read or passed over.
    pub open spec fn consumed(self) -> Seq<u8> {
        self.input.take(self.input.len() - self.remaining.len())
    }
}

/// A read that follows `model`: where the model gives a value and a number of
/// bytes, the source has that many bytes left, the read hands out that value
/// and leaves the source that many bytes further on; where the model gives an
/// error, the read hands out that error, and the source is left somewhere
/// inside what was being read; the reads of this module say where. A read
/// never changes the bytes of the source.
pub open spec fn reads<T: View, E: View>(
    before: Source,
    after: Source,
    got: Result<T, E>,
    model: Result<(T::V, nat), E::V>,
) -> bool {
    &&& after.input == before.input
    &&& match model {
        Ok((v, n)) => got matches Ok(x) && x@ == v && n <= before.remaining.len()
            && after.remaining == before.remaining.skip(n as int),
        Err(e) => got matches Err(g) && g@ == e,
    }
}

/// The number of bytes that the reading of a variable-length integer of at
/// most `limit` bytes takes from the input, whether it succeeds or fails:
/// every byte up to the first that asks for no other, but no more than the
/// limit and no more than there are.
pub open spec fn varuint_taken(s: Seq<u8>, limit: nat) -> nat
    decreases limit,
{
    if limit == 0 || s.len() < 1 {
        0
    } else if s[0] < 0x80 {
        1
    } else {
        1 + varuint_taken(s.skip(1), (limit - 1) as nat)
    }
}

/// A sequential source of bytes, with the typed reads of the codec.
pub trait Reader: Sized {
    /// All the bytes of the source, and those that have not been read yet.
    spec fn source(&self) -> Source;

    /// Takes the next `len` bytes, or fails with a malformed-packet error where
    /// fewer are left.
    fn read_exact_buf(&mut self, len: usize) -> (r: Result<Vec<u8>, Error>)
        ensures
            reads(
                old(self).source(),
                final(self).source(),
                r,
                parse_exact(old(self).source().remaining, len as nat),
            ),
            r is Err ==> final(self).source() == old(self).source(),
    ;

    /// Reads a boolean: one byte, true unless it is zero.
    fn read_bool(&mut self) -> (r: Result<bool, Error>)
        ensures
            reads(
                old(self).source(),
                final(self).source(),
                r,
                parse_bool(old(self).source().remaining),
            ),
            r is Err ==> final(self).source() == old(self).source(),
    {
        let v = self.read_u8()?;
        Ok(v != 0)
    }

    /// Reads a byte.
    fn read_u8(&mut self) -> (r: Result<u8, Error>)
        ensures
            reads(
                old(self).source(),
                final(self).source(),
                r,
                parse_u8(old(self).source().remaining),
            ),
            r is Err ==> final(self).source() == old(self).source(),
    {
        let buf = self.read_exact_buf(1)?;
        Ok(buf[0])
    }

    /// Reads a 16-bit integer, the high byte first.
    fn read_u16(&mut self) -> (r: Result<u16, Error>)
        ensures
            reads(
                old(self).source(),
                final(self).source(),
                r,
                parse_u16(old(self).source().remaining),
            ),
            r is Err ==> final(self).source() == old(self).source(),
    {
        let buf = self.read_exact_buf(2)?;
        Ok(buf[0] as u16 * 0x100 + buf[1] as u16)
    }

    /// Reads a 32-bit integer, the highest byte first.
    fn read_u32(&mut self) -> (r: Result<u32, Error>)
        ensures
            reads(
                old(self).source(),
                final(self).source(),
                r,
                parse_u32(old(self).source().remaining),
            ),
            r is Err ==> final(self).source() == old(self).source(),
    {
        let buf = self.read_exact_buf(4)?;
        Ok(
            buf[0] as u32 * 0x100_0000 + buf[1] as u32 * 0x1_0000 + buf[2] as u32 * 0x100
                + buf[3] as u32,
        )
    }

    /// Reads a variable-length integer of at most four bytes. A fourth byte
    /// that asks for a fifth is a length error, and no fifth byte is read.
    fn read_varuint32(&mut self) -> (r: Result<u32, Error>)
        ensures
            reads(
                old(self).source(),
                final(self).source(),
                r,
                parse_varuint32(old(self).source().remaining),
            ),
            final(self).source().remaining == old(self).source().remaining.skip(
                varuint_taken(old(self).source().remaining, 4) as int,
            ),
            varuint_taken(old(self).source().remaining, 4) <= 4,
            varuint_taken(old(self).source().remaining, 4) <= old(self).source().remaining.len(),
    {
        let ghost start = self.source().remaining;
        proof {
            lemma_varuint_taken(start, 4);
            assert(start.skip(0) == start);
        }
        let mut value: u32 = 0;
        let mut multiplier: u32 = 1;
        let mut consumed: u32 = 0;
        loop
            invariant
                start == old(self).source().remaining,
                self.source().input == old(self).source().input,
                consumed < 4,
                consumed <= start.len(),
                varuint_taken(start, 4) <= 4,
                varuint_taken(start, 4) <= start.len(),
                varuint_taken(start, 4) == consumed + varuint_taken(
                    self.source().remaining,
                    (4 - consumed) as nat,
                ),
                multiplier == varuint_multiplier(consumed as nat),
                value < multiplier,
                self.source().remaining == start.skip(consumed as int),
                parse_varuint(start, 4) == match parse_varuint(
                    self.source().remaining,
                    (4 - consumed) as nat,
                ) {
                    Ok((v, n)) => Ok(((value + multiplier * v) as nat, (n + consumed) as nat)),
                    Err(e) => Err(e),
                },
            decreases 4 - consumed,
        {
            let ghost here = self.source().remaining;
            let encoded_byte = self.read_u8()?;
            consumed += 1;
            assert(here.skip(1) =~= start.skip(consumed as int));
            assert(varuint_taken(here, (5 - consumed) as nat) == if encoded_byte < 0x80 {
                1
            } else {
                1 + varuint_taken(here.skip(1), (4 - consumed) as nat)
            });
            assert(varuint_taken(here.skip(1), 0) == 0);
            value += (encoded_byte % 0x80) as u32 * multiplier;
            if encoded_byte < 0x80 {
                return Ok(value);
            }
            multiplier *= 0x80;
            if multiplier > 0x80 * 0x80 * 0x80 {
                return Err(Error::InvalidVarUint32Length(multiplier));
            }
            proof {
                let next = parse_varuint(here.skip(1), (4 - consumed) as nat);
                if let Ok((v, n)) = next {
                    assert(value + multiplier * v == (value - (encoded_byte - 0x80) * (multiplier
                        / 0x80)) + (multiplier / 0x80) * (encoded_byte - 0x80 + 0x80 * v))
                        by (nonlinear_arith)
                        requires
                            multiplier % 0x80 == 0,
                    ;
                }
            }
        }
    }

    /// Reads binary data: a 16-bit length, then that many bytes.
    fn read_binary(&mut self) -> (r: Result<Vec<u8>, Error>)
        ensures
            reads(
                old(self).source(),
                final(self).source(),
                r,
                parse_binary(old(self).source().remaining),
            ),
            final(self).source().remaining == old(self).source().remaining.skip(
                binary_taken(old(self).source().remaining) as int,
            ),
    {
        let ghost start = self.source().remaining;
        assert(start.skip(0) == start);
        let size = self.read_u16()?;
        let data = self.read_exact_buf(size as usize)?;
        assert(data@ == start.subrange(2, 2 + size));
        assert(self.source().remaining == start.skip(2 + size));
        Ok(data)
    }

    /// Reads text: binary data that must be well-formed UTF-8 without a
    /// forbidden code point.
    fn read_utf8_string(&mut self) -> (r: Result<String, Error>)
        ensures
            reads(
                old(self).source(),
                final(self).source(),
                r,
                parse_utf8_string(old(self).source().remaining),
            ),
            final(self).source().remaining == old(self).source().remaining.skip(
                binary_taken(old(self).source().remaining) as int,
            ),
    {
        let data = self.read_binary()?;
        match string_from_utf8(data) {
            Some(v) => {
                proof {
                    encode_utf8_decode_utf8(v@);
                }
                if validate_utf8_chars(v.as_str()) {
                    Ok(v)
                } else {
                    Err(Error::InvalidUTF8String)
                }
            },
            None => Err(Error::InvalidUTF8String),
        }
    }

    /// Reads a name and then its value.
    fn read_key_value_pair(&mut self) -> (r: Result<KeyValuePair, Error>)
        ensures
            reads(
                old(self).source(),
                final(self).source(),
                r,
                parse_key_value_pair(old(self).source().remaining),
            ),
            final(self).source().remaining == old(self).source().remaining.skip(
                key_value_pair_taken(old(self).source().remaining) as int,
            ),
    {
        let ghost start = self.source().remaining;
        let key = self.read_utf8_string()?;
        let ghost middle = self.source().remaining;
        proof {
            let n = parse_utf8_string(start)->Ok_0.1;
            let k = binary_taken(middle);
            assert(start.skip(n as int).skip(k as int) =~= start.skip((n + k) as int));
        }
        let value = self.read_utf8_string()?;
        proof {
            let n = parse_utf8_string(start)->Ok_0.1;
            let m = parse_utf8_string(middle)->Ok_0.1;
            assert(start.skip(n as int).skip(m as int) =~= start.skip((n + m) as int));
        }
        Ok((key, value))
    }
}

/// `String::from_utf8`: gives the text where the bytes are well-formed UTF-8,
/// and nothing where they are not. The text it gives is the one whose UTF-8
/// form is those bytes.
#[verifier::external_body]
pub(crate) fn string_from_utf8(data: Vec<u8>) -> (r: Option<String>)
    ensures
        r is Some <==> valid_utf8(data@),
        r matches Some(text) ==> encode_utf8(text@) == data@,
{
    match String::from_utf8(data) {
        Ok(text) => Some(text),
        Err(_) => None,
    }
}

/// Tells whether the text is free of forbidden code points.
pub fn validate_utf8_chars(v: &str) -> (ok: bool)
    ensures
        ok == allowed_chars(v@),
{
    broadcast use vstd::string::axiom_spec_iter;

    for c in it: v.chars()
        invariant
            it.seq() == v@,
            forall|i: int| 0 <= i < it.index() ==> !is_forbidden_char(#[trigger] v@[i]),
    {
        let code = c as u32;
        if code <= 0x1f {
            return false;
        }
        if code >= 0x7f && code <= 0x9f {
            return false;
        }
    }
    true
}

/// The size of a variable-length integer on the wire.
pub struct VarUint32Size {}

impl VarUint32Size {
    /// The number of bytes that `value` takes as a variable-length integer.
    /// A number past the largest one counts five.
    pub fn size(value: u32) -> (n: u32)
        ensures
            n == varuint32_size(value),
    {
        let mut copied = value;
        let mut var_size: u32 = 0;
        loop
            invariant_except_break
                var_size < 5,
                copied as int == value as int / varuint_multiplier(var_size as nat) as int,
                var_size > 0 ==> copied > 0,
            ensures
                var_size == varuint32_size(value),
            decreases 5 - var_size,
        {
            copied /= 0x80;
            var_size += 1;
            if copied == 0 {
                break ;
            }
        }
        var_size
    }
}

/// The size of text on the wire.
pub struct UTF8String {}

impl UTF8String {
    /// The number of bytes that `value` takes with its length prefix.
    pub fn size(value: &String) -> (n: u32)
        requires
            encode_utf8(value@).len() + 2 <= u32::MAX,
        ensures
            n == utf8_string_bytes(value@).len(),
    {
        value.as_str().len() as u32 + 2
    }
}

/// The size of binary data on the wire.
pub struct BinaryData {}

impl BinaryData {
    /// The number of bytes that `value` takes with its length prefix.
    pub fn size(value: &Vec<u8>) -> (n: u32)
        requires
            value@.len() + 2 <= u32::MAX,
        ensures
            n == binary_bytes(value@).len(),
    {
        value.len() as u32 + 2
    }
}

/// The number of bytes that the reading of binary data, or of text, takes
/// from the input, whether it succeeds or fails: nothing where the length is
/// cut short, the two bytes of the length where the data is, and else the
/// length and the data.
pub open spec fn binary_taken(s: Seq<u8>) -> nat {
    if s.len() < 2 {
        0
    } else if s.len() < 2 + (s[0] * 0x100 + s[1]) {
        2
    } else {
        (2 + (s[0] * 0x100 + s[1])) as nat
    }
}

/// The number of bytes that the reading of a name and its value takes from
/// the input, whether it succeeds or fails: what the name takes and, where
/// the name is read, what the value takes.
pub open spec fn key_value_pair_taken(s: Seq<u8>) -> nat {
    match parse_utf8_string(s) {
        Ok((key, n)) => n + binary_taken(s.skip(n as int)),
        Err(e) => binary_taken(s),
    }
}

/// The reading of a variable-length integer takes no more bytes than its
/// limit and no more than there are, and where it succeeds it takes the bytes
/// that it reads.
pub proof fn lemma_varuint_taken(s: Seq<u8>, limit: nat)
    ensures
        varuint_taken(s, limit) <= limit,
        varuint_taken(s, limit) <= s.len(),
        parse_varuint(s, limit) matches Ok((v, n)) ==> n == varuint_taken(s, limit),
    decreases limit,
{
    if limit > 0 && s.len() >= 1 && s[0] >= 0x80 {
        lemma_varuint_taken(s.skip(1), (limit - 1) as nat);
    }
}

/// The weight of the byte that comes after `consumed` bytes of a variable-length integer.
pub open spec fn varuint_multiplier(consumed: nat) -> nat {
    if consumed == 0 {
        1
    } else if consumed == 1 {
        0x80
    } else if consumed == 2 {
        0x4000
    } else if consumed == 3 {
        0x20_0000
    } else if consumed == 4 {
        0x1000_0000
    } else {
        0x8_0000_0000
    }
}

/// What a sink of bytes holds and can still take.
pub struct Sink {
    /// The bytes written so far.
    pub written: Seq<u8>,
    /// The number of bytes that the sink still takes.
    pub room: nat,
    /// The bytes that stand behind what was written and are written over by
    /// what is written next. A sink that only grows has none.
    pub ahead: Seq<u8>,
}

/// What is left of the bytes ahead after `n` bytes were written over them.
pub open spec fn left_ahead(ahead: Seq<u8>, n: nat) -> Seq<u8> {
    if n <= ahead.len() {
        ahead.skip(n as int)
    } else {
        Seq::empty()
    }
}

/// Writing over the bytes ahead in two steps leaves what writing over them
/// in one step leaves.
pub proof fn lemma_left_ahead(ahead: Seq<u8>, first: nat, second: nat)
    ensures
        left_ahead(left_ahead(ahead, first), second) == left_ahead(ahead, first + second),
        left_ahead(ahead, 0) == ahead,
{
    assert(left_ahead(left_ahead(ahead, first), second) =~= left_ahead(ahead, first + second));
    assert(left_ahead(ahead, 0) =~= ahead);
}

/// Putting `bytes` into a sink: where it has room for all of them, they stand
/// behind what was written before, and over as many of the bytes ahead;
/// where it has not, the write is a malformed packet.
pub open spec fn put(sink: Sink, bytes: Seq<u8>) -> Result<Sink, Error> {
    if bytes.len() <= sink.room {
        Ok(
            Sink {
                written: sink.written + bytes,
                room: (sink.room - bytes.len()) as nat,
                ahead: left_ahead(sink.ahead, bytes.len()),
            },
        )
    } else {
        Err(Error::MalformedPacket)
    }
}

/// Putting a variable-length integer: a number past the largest one is refused.
pub open spec fn put_varuint32(sink: Sink, value: u32) -> Result<Sink, Error> {
    if value > MAX_VARUINT32 {
        Err(Error::InvalidVarUint32(value))
    } else {
        put(sink, varuint_bytes(value as nat))
    }
}

/// Putting binary data: data longer than its length prefix can announce is a
/// malformed packet.
pub open spec fn put_binary(sink: Sink, data: Seq<u8>) -> Result<Sink, Error> {
    if data.len() > MAX_DATA_LEN {
        Err(Error::MalformedPacket)
    } else {
        put(sink, binary_bytes(data))
    }
}

/// Putting text: its UTF-8 form as binary data.
pub open spec fn put_utf8_string(sink: Sink, text: Seq<char>) -> Result<Sink, Error> {
    put_binary(sink, encode_utf8(text))
}

/// Putting a name and then its value.
pub open spec fn put_key_value_pair(sink: Sink, key: Seq<char>, value: Seq<char>) -> Result<
    Sink,
    Error,
> {
    match put_utf8_string(sink, key) {
        Ok(next) => put_utf8_string(next, value),
        Err(e) => Err(e),
    }
}

/// A write that follows `model`: where the model gives a sink, the write
/// succeeds and leaves the sink so; where the model gives an error, the write
/// hands out that error, and a part of the bytes may have been written.
pub open spec fn wrote(after: Sink, r: Result<(), Error>, model: Result<Sink, Error>) -> bool {
    match model {
        Ok(sink) => r is Ok && after == sink,
        Err(e) => r == Err::<(), Error>(e),
    }
}

/// A sequential sink of bytes, with the typed writes of the codec.
pub trait Writer: Sized {
    /// What has been written so far, and the room that is left.
    spec fn sink(&self) -> Sink;

    /// Writes all of `buf`, or fails with a malformed-packet error where the
    /// sink has less room.
    fn write_internal(&mut self, buf: &[u8]) -> (r: Result<(), Error>)
        ensures
            wrote(final(self).sink(), r, put(old(self).sink(), buf@)),
    ;

    /// Writes a boolean as one byte, 1 or 0.
    fn write_bool(&mut self, value: bool) -> (r: Result<(), Error>)
        ensures
            wrote(final(self).sink(), r, put(old(self).sink(), bool_bytes(value))),
    {
        let buf: [u8; 1] = [if value { 1 } else { 0 }];
        assert(buf@ =~= bool_bytes(value));
        self.write_internal(buf.as_slice())
    }

    /// Writes a byte.
    fn write_u8(&mut self, value: u8) -> (r: Result<(), Error>)
        ensures
            wrote(final(self).sink(), r, put(old(self).sink(), u8_bytes(value))),
    {
        let buf: [u8; 1] = [value];
        assert(buf@ =~= u8_bytes(value));
        self.write_internal(buf.as_slice())
    }

    /// Writes a 16-bit integer, the high byte first.
    fn write_u16(&mut self, value: u16) -> (r: Result<(), Error>)
        ensures
            wrote(final(self).sink(), r, put(old(self).sink(), u16_bytes(value))),
    {
        let buf: [u8; 2] = [(value / 0x100) as u8, (value % 0x100) as u8];
        assert(buf@ =~= u16_bytes(value));
        self.write_internal(buf.as_slice())
    }

    /// Writes a 32-bit integer, the highest byte first.
    fn write_u32(&mut self, value: u32) -> (r: Result<(), Error>)
        ensures
            wrote(final(self).sink(), r, put(old(self).sink(), u32_bytes(value))),
    {
        let buf: [u8; 4] = [
            (value / 0x100_0000) as u8,
            (value / 0x1_0000 % 0x100) as u8,
            (value / 0x100 % 0x100) as u8,
            (value % 0x100) as u8,
        ];
        assert(buf@ =~= u32_bytes(value));
        self.write_internal(buf.as_slice())
    }

    /// Writes `value` as a variable-length integer. A number past the largest
    /// one is refused before anything is written: the writer stays as it was.
    fn write_varuint32(&mut self, value: u32) -> (r: Result<(), Error>)
        ensures
            wrote(final(self).sink(), r, put_varuint32(old(self).sink(), value)),
            value > MAX_VARUINT32 ==> *final(self) == *old(self),
    {
        if value > MAX_VARUINT32 {
            return Err(Error::InvalidVarUint32(value));
        }
        let mut copied = value;
        let ghost mut count: nat = 0;
        proof {
            lemma_left_ahead(self.sink().ahead, 0, 0);
        }
        loop
            invariant_except_break
                value <= MAX_VARUINT32,
                old(self).sink().written + varuint_bytes(value as nat) == self.sink().written
                    + varuint_bytes(copied as nat),
                self.sink().written.len() == old(self).sink().written.len() + count,
                self.sink().room + count == old(self).sink().room,
                self.sink().ahead == left_ahead(old(self).sink().ahead, count),
            ensures
                value <= MAX_VARUINT32,
                old(self).sink().written + varuint_bytes(value as nat) == self.sink().written,
                self.sink().written.len() == old(self).sink().written.len() + count,
                self.sink().room + count == old(self).sink().room,
                self.sink().ahead == left_ahead(old(self).sink().ahead, count),
            decreases copied,
        {
            let ghost before = self.sink().written;
            let ghost rest = copied;
            let mut encoded_byte: u8 = (copied % 0x80) as u8;
            copied /= 0x80;
            if copied > 0 {
                encoded_byte += 0x80;
            }
            assert(varuint_bytes(rest as nat) == if rest < 0x80 {
                seq![encoded_byte]
            } else {
                seq![encoded_byte] + varuint_bytes(copied as nat)
            });
            assert(varuint_bytes(value as nat).len() == count + varuint_bytes(rest as nat).len())
                by {
                assert((old(self).sink().written + varuint_bytes(value as nat)).len() == (before
                    + varuint_bytes(rest as nat)).len());
            }
            self.write_u8(encoded_byte)?;
            proof {
                lemma_left_ahead(old(self).sink().ahead, count, 1);
                count = count + 1;
                assert(before + varuint_bytes(rest as nat) == if rest < 0x80 {
                    self.sink().written
                } else {
                    self.sink().written + varuint_bytes(copied as nat)
                });
            }
            if copied == 0 {
                break ;
            }
        }
        Ok(())
    }

    /// Writes binary data with its length in two bytes before it. Data of
    /// more than 65535 bytes is refused before anything is written.
    fn write_binary(&mut self, value: &[u8]) -> (r: Result<(), Error>)
        ensures
            wrote(final(self).sink(), r, put_binary(old(self).sink(), value@)),
            value@.len() > MAX_DATA_LEN ==> *final(self) == *old(self),
    {
        if value.len() > MAX_DATA_LEN {
            return Err(Error::MalformedPacket);
        }
        assert(binary_bytes(value@).len() == 2 + value@.len());
        proof {
            lemma_left_ahead(self.sink().ahead, 2, value@.len());
        }
        self.write_u16(value.len() as u16)?;
        let r = self.write_internal(value);
        assert(old(self).sink().written + u16_bytes(value@.len() as u16) + value@ =~= old(
            self,
        ).sink().written + binary_bytes(value@));
        r
    }

    /// Writes the UTF-8 form of text with its length in two bytes before it.
    /// Text of more than 65535 bytes is refused before anything is written.
    fn write_utf8_string(&mut self, value: &str) -> (r: Result<(), Error>)
        ensures
            wrote(final(self).sink(), r, put_utf8_string(old(self).sink(), value@)),
            encode_utf8(value@).len() > MAX_DATA_LEN ==> *final(self) == *old(self),
    {
        let bytes = value.as_bytes();
        if bytes.len() > MAX_DATA_LEN {
            return Err(Error::MalformedPacket);
        }
        let ghost data = encode_utf8(value@);
        assert(binary_bytes(data).len() == 2 + data.len());
        proof {
            lemma_left_ahead(self.sink().ahead, 2, data.len());
        }
        self.write_u16(bytes.len() as u16)?;
        let r = self.write_internal(bytes);
        assert(old(self).sink().written + u16_bytes(data.len() as u16) + data =~= old(
            self,
        ).sink().written + binary_bytes(data));
        r
    }

    /// Writes a name and then its value.
    fn write_key_value_pair(&mut self, key: &str, value: &str) -> (r: Result<(), Error>)
        ensures
            wrote(final(self).sink(), r, put_key_value_pair(old(self).sink(), key@, value@)),
            encode_utf8(key@).len() > MAX_DATA_LEN ==> *final(self) == *old(self),
    {
        self.write_utf8_string(key)?;
        self.write_utf8_string(value)
    }
}

/// A buffer of bytes with a position in it. Reads take the bytes from the
/// position on. Writes put bytes at the position, over the bytes that stand
/// there and past the end where they run out. A position past the end counts
/// as the end.
pub struct Cursor {
    pub data: Vec<u8>,
    pub pos: usize,
}

impl Cursor {
    /// The position, held to the end of the buffer.
    pub open spec fn offset(&self) -> int {
        if self.pos <= self.data@.len() {
            self.pos as int
        } else {
            self.data@.len() as int
        }
    }

    /// A cursor at the start of `data`.
    pub fn new(data: Vec<u8>) -> (c: Cursor)
        ensures
            c.data == data,
            c.pos == 0,
            c.source() == (Source { input: data@, remaining: data@ }),
            c.sink() == (Sink {
                written: Seq::empty(),
                room: usize::MAX as nat,
                ahead: data@,
            }),
    {
        assert(data@.skip(0) =~= data@);
        assert(data@.take(0) =~= Seq::<u8>::empty());
        Cursor { data, pos: 0 }
    }

    /// The position, held to the end of the buffer: the number of bytes that
    /// lie before the next one to be read or written.
    pub fn position(&self) -> (pos: usize)
        ensures
            pos == self.offset(),
            pos == self.source().consumed().len(),
            pos == self.sink().written.len(),
    {
        if self.pos <= self.data.len() {
            self.pos
        } else {
            self.data.len()
        }
    }

    /// Moves to the position.
    pub fn set_position(&mut self, pos: usize)
        ensures
            final(self).pos == pos,
            final(self).data == old(self).data,
    {
        self.pos = pos;
    }

    /// The buffer.
    pub fn get_ref(&self) -> (data: &Vec<u8>)
        ensures
            data == self.data,
            data@ == self.source().input,
    {
        &self.data
    }

    /// The buffer, whole.
    pub fn into_inner(self) -> (data: Vec<u8>)
        ensures
            data == self.data,
            data@ == self.sink().written + self.sink().ahead,
    {
        self.data
    }

    /// The bytes before the position: what was written, where the cursor
    /// began at the start of an empty buffer.
    pub fn into_written(self) -> (data: Vec<u8>)
        ensures
            data@ == self.sink().written,
    {
        let mut data = self.data;
        if self.pos < data.len() {
            data.truncate(self.pos);
        }
        assert(data@ =~= self.sink().written);
        data
    }
}

impl Reader for Cursor {
    open spec fn source(&self) -> Source {
        Source { input: self.data@, remaining: self.data@.skip(self.offset()) }
    }

    fn read_exact_buf(&mut self, len: usize) -> (r: Result<Vec<u8>, Error>)
        ensures
            r is Ok ==> final(self).data == old(self).data && final(self).pos == old(self).offset()
                + len,
    {
        let total = self.data.len();
        let start = if self.pos <= total {
            self.pos
        } else {
            total
        };
        if len > total - start {
            return Err(Error::MalformedPacket);
        }
        let mut out: Vec<u8> = Vec::with_capacity(len);
        let mut i: usize = 0;
        while i < len
            invariant
                total == self.data@.len(),
                start + len <= total,
                i <= len,
                out@ == self.data@.subrange(start as int, start + i),
            decreases len - i,
        {
            out.push(self.data[start + i]);
            i += 1;
        }
        self.pos = start + len;
        assert(out@ =~= old(self).source().remaining.take(len as int));
        assert(self.source().remaining =~= old(self).source().remaining.skip(len as int));
        Ok(out)
    }
}

impl Writer for Cursor {
    open spec fn sink(&self) -> Sink {
        Sink {
            written: self.data@.take(self.offset()),
            room: (usize::MAX - self.offset()) as nat,
            ahead: self.data@.skip(self.offset()),
        }
    }

    fn write_internal(&mut self, buf: &[u8]) -> (r: Result<(), Error>)
        ensures
            r is Ok ==> final(self).pos == old(self).offset() + buf@.len() && final(self).pos
                <= final(self).data@.len(),
    {
        if self.pos > self.data.len() {
            self.pos = self.data.len();
        }
        if buf.len() > usize::MAX - self.pos {
            return Err(Error::MalformedPacket);
        }
        let ghost start = self.sink().written;
        let ghost ahead = self.sink().ahead;
        let mut i: usize = 0;
        proof {
            lemma_left_ahead(ahead, 0, 0);
        }
        while i < buf.len()
            invariant
                i <= buf@.len(),
                self.pos <= self.data@.len(),
                self.pos + (buf@.len() - i) <= usize::MAX,
                self.pos == old(self).offset() + i,
                self.sink().written == start + buf@.take(i as int),
                self.sink().ahead == left_ahead(ahead, i as nat),
            decreases buf@.len() - i,
        {
            let ghost before = self.data@;
            let ghost at = self.pos as int;
            if self.pos < self.data.len() {
                self.data.set(self.pos, buf[i]);
            } else {
                self.data.push(buf[i]);
            }
            self.pos += 1;
            i += 1;
            assert(self.data@.take(at + 1) =~= before.take(at).push(buf@[i - 1]));
            assert(buf@.take(i as int) =~= buf@.take(i - 1).push(buf@[i - 1]));
            assert(self.sink().written =~= start + buf@.take(i as int));
            assert(self.data@.skip(at + 1) =~= left_ahead(before.skip(at), 1));
            proof {
                lemma_left_ahead(ahead, (i - 1) as nat, 1);
            }
        }
        assert(buf@.take(buf@.len() as int) == buf@);
        Ok(())
    }
}

} // verus!
