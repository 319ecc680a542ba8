//! What holds between the writing and the reading of a CONNECT packet: the
//! wire form that is written, byte for byte, the length that its fixed header
//! announces, and that reading it gives back the packet.

use vstd::prelude::*;
use vstd::utf8::*;
use crate::errors::ErrorView;
use crate::mqttio::errors::Error as CodecError;
use crate::mqttio::block::{
    block_entries, entries_bytes, entries_of, entries_size, parse_block, slot_entries, Entry,
    PropertyBlock,
};
use crate::mqttio::block_roundtrip::{
    all_fit, lemma_block_roundtrip, lemma_entries_bytes_len, lemma_holds_own_entries,
    lemma_put_entries, values_well_formed,
};
use crate::mqttio::io::{
    lemma_left_ahead, allowed_chars, binary_bytes, parse_u16, parse_utf8_string, put, u16_bytes, utf8_string_bytes,
    varuint_bytes, Sink, MAX_DATA_LEN, MAX_VARUINT32,
};
use crate::mqttio::properties::lemma_put_twice;
use crate::mqttio::roundtrip::{
    lemma_binary_roundtrip, lemma_u16_roundtrip, lemma_utf8_string_roundtrip,
    lemma_varuint32_roundtrip, lemma_varuint_bytes_len,
};
use crate::packet::connect::{
    block_agrees, block_size, connect_flag_error, connect_packet, flag_clean_start, flag_password,
    flag_reserved, flag_user_name, flag_will, flag_will_qos, flag_will_retain, optional_data_size,
    lemma_text_is_empty, optional_entries, parse_connect, parse_connect_head, parse_connect_tail,
    parse_optional_binary, parse_optional_text, parse_optional_will, parse_will, protocol_name_bytes, put_block, put_connect_head, put_connect_payload,
    put_connect_tail, put_optional_binary, put_optional_text, put_optional_will, put_will, Connect,
    ConnectModel, ConnectProperties, Will, WillModel, PROTOCOL_NAME,
    PROTOCOL_VERSION,
};
use crate::packet::packet::{parse_fixed_header, PacketType};

verus! {

/// The wire form of a block of properties: the size of its entries, then the entries.
pub open spec fn block_bytes(entries: Seq<Entry>) -> Seq<u8> {
    varuint_bytes(entries_size(entries)) + entries_bytes(entries)
}

/// The wire form of text that is written only where it has content.
pub open spec fn optional_text_bytes(text: Seq<char>) -> Seq<u8> {
    if text.len() > 0 {
        utf8_string_bytes(text)
    } else {
        Seq::empty()
    }
}

/// The wire form of binary data that is written only where it has content.
pub open spec fn optional_binary_bytes(data: Seq<u8>) -> Seq<u8> {
    if data.len() > 0 {
        binary_bytes(data)
    } else {
        Seq::empty()
    }
}

/// Text has a wire form: its UTF-8 form is short enough for the length prefix.
pub open spec fn text_fits(text: Seq<char>) -> bool {
    encode_utf8(text).len() <= MAX_DATA_LEN
}

impl Will {
    /// The will has a wire form.
    pub open spec fn writable(self) -> bool {
        &&& self.qos <= 2
        &&& all_fit(optional_entries(self.properties))
        &&& entries_size(optional_entries(self.properties)) <= MAX_VARUINT32
        &&& text_fits(self.topic@)
        &&& self.payload@.len() <= MAX_DATA_LEN
    }

    /// The wire form of the will: its properties, its topic and its payload.
    pub open spec fn wire_bytes(self) -> Seq<u8> {
        block_bytes(optional_entries(self.properties)) + utf8_string_bytes(self.topic@)
            + binary_bytes(self.payload@)
    }

    /// The will reads back as itself: it has a wire form, its text holds no
    /// forbidden code point, and its properties, where it has any, are well
    /// formed and not all absent.
    pub open spec fn well_formed(self) -> bool {
        &&& self.writable()
        &&& allowed_chars(self.topic@)
        &&& self.properties matches Some(p) ==> values_well_formed(p) && entries_size(
            block_entries(p),
        ) > 0
    }

    /// The will as plain values.
    pub open spec fn model(self) -> WillModel {
        WillModel {
            qos: self.qos,
            retain: self.retain,
            properties: match self.properties {
                Some(p) => Some(block_entries(p)),
                None => None,
            },
            topic: self.topic@,
            payload: self.payload@,
        }
    }
}

impl Connect {
    /// The packet has a wire form: the quality of service of its will is at
    /// most 2, every value fits its wire form, and the remaining length is no
    /// more than the largest variable-length integer.
    pub open spec fn writable(self) -> bool {
        &&& self.will matches Some(w) ==> w.writable()
        &&& self.remaining_length() <= MAX_VARUINT32
        &&& all_fit(optional_entries(self.properties))
        &&& text_fits(self.client_id@)
        &&& text_fits(self.user_name@)
        &&& self.password@.len() <= MAX_DATA_LEN
    }

    /// What follows the fixed header up to the keep-alive time: the protocol
    /// name, the version, the connect flags and the keep-alive time.
    pub open spec fn head_bytes(self) -> Seq<u8> {
        protocol_name_bytes() + seq![PROTOCOL_VERSION] + seq![self.flags()] + u16_bytes(
            self.keep_alive,
        )
    }

    /// What follows the keep-alive time: the properties, the client
    /// identifier, the will where there is one, and the user name and the
    /// password where they have content.
    pub open spec fn payload_bytes(self) -> Seq<u8> {
        block_bytes(optional_entries(self.properties)) + utf8_string_bytes(self.client_id@)
            + self.tail_bytes()
    }

    /// What follows the client identifier.
    pub open spec fn tail_bytes(self) -> Seq<u8> {
        optional_will_bytes(self.will) + optional_text_bytes(self.user_name@)
            + optional_binary_bytes(self.password@)
    }

    /// The fixed header: the packet type in the high four bits of the first
    /// byte, then the remaining length.
    pub open spec fn fixed_header_bytes(self) -> Seq<u8> {
        seq![0x10u8] + varuint_bytes(self.remaining_length())
    }

    /// The wire form of the packet.
    pub open spec fn wire_bytes(self) -> Seq<u8> {
        self.fixed_header_bytes() + self.head_bytes() + self.payload_bytes()
    }

    /// The packet reads back as itself: it has a wire form under the
    /// protocol name MQTT and the version 5, its text holds no forbidden code
    /// point, and its properties and those of its will, where there are any,
    /// are well formed and not all absent.
    pub open spec fn well_formed(self) -> bool {
        &&& self.writable()
        &&& self.protocol_name@ == PROTOCOL_NAME@
        &&& self.protocol_version == PROTOCOL_VERSION
        &&& allowed_chars(self.client_id@)
        &&& allowed_chars(self.user_name@)
        &&& self.will matches Some(w) ==> w.well_formed()
        &&& self.properties matches Some(p) ==> values_well_formed(p) && entries_size(
            block_entries(p),
        ) > 0
    }

    /// The packet as plain values.
    pub open spec fn model(self) -> ConnectModel {
        ConnectModel {
            clean_start: self.clean_start,
            keep_alive: self.keep_alive,
            properties: match self.properties {
                Some(p) => Some(block_entries(p)),
                None => None,
            },
            client_id: self.client_id@,
            will: match self.will {
                Some(w) => Some(w.model()),
                None => None,
            },
            user_name: self.user_name@,
            password: self.password@,
        }
    }
}

/// What stands behind the first part of a sequence made of two.
pub proof fn lemma_skip_first(first: Seq<u8>, second: Seq<u8>)
    ensures
        (first + second).skip(first.len() as int) == second,
        (first + second).take(first.len() as int) == first,
{
    assert((first + second).skip(first.len() as int) =~= second);
    assert((first + second).take(first.len() as int) =~= first);
}

/// The protocol name on the wire is the text MQTT with its length before it.
pub proof fn lemma_protocol_name_bytes()
    ensures
        utf8_string_bytes(PROTOCOL_NAME@) == protocol_name_bytes(),
        text_fits(PROTOCOL_NAME@),
{
    reveal_strlit("MQTT");
    let text = PROTOCOL_NAME@;
    assert(is_ascii_chars(text));
    is_ascii_chars_encode_utf8(text);
    let data = encode_utf8(text);
    assert(data =~= seq![0x4du8, 0x51u8, 0x54u8, 0x54u8]);
    assert(utf8_string_bytes(text) =~= protocol_name_bytes());
}

/// Putting a block whose values fit and whose size is no more than the
/// largest variable-length integer puts its wire form, which has the size of
/// the block.
pub proof fn lemma_put_block(sink: Sink, entries: Seq<Entry>)
    requires
        all_fit(entries),
        entries_size(entries) <= MAX_VARUINT32,
    ensures
        put_block(sink, entries) == put(sink, block_bytes(entries)),
        block_bytes(entries).len() == block_size(entries),
{
    lemma_put_twice(sink, varuint_bytes(entries_size(entries)), entries_bytes(entries));
    if let Ok(next) = put(sink, varuint_bytes(entries_size(entries))) {
        lemma_put_entries(next, entries);
    }
    lemma_entries_bytes_len(entries);
}

/// Putting a will that has a wire form puts that wire form, which has the
/// size of the will.
pub proof fn lemma_put_will(sink: Sink, w: Will)
    requires
        w.writable(),
    ensures
        put_will(sink, w) == put(sink, w.wire_bytes()),
        w.wire_bytes().len() == w.size(),
{
    let entries = optional_entries(w.properties);
    let first = block_bytes(entries);
    let second = utf8_string_bytes(w.topic@);
    let third = binary_bytes(w.payload@);
    lemma_put_block(sink, entries);
    lemma_put_twice(sink, first, second);
    lemma_put_twice(sink, first + second, third);
}

/// Putting what opens a packet that has a wire form puts the fixed header
/// and the ten bytes behind it.
pub proof fn lemma_put_connect_head(sink: Sink, c: Connect)
    requires
        c.writable(),
    ensures
        put_connect_head(sink, c) == put(sink, c.fixed_header_bytes() + c.head_bytes()),
        c.head_bytes().len() == 10,
        c.fixed_header_bytes().len() == 1 + varuint_bytes(c.remaining_length()).len(),
{
    lemma_protocol_name_bytes();
    let a = seq![0x10u8];
    let b = varuint_bytes(c.remaining_length());
    let n = protocol_name_bytes();
    let v = seq![PROTOCOL_VERSION];
    let f = seq![c.flags()];
    let k = u16_bytes(c.keep_alive);
    assert(seq![(PacketType::CONNECT.code() * 16) as u8] =~= a);
    lemma_put_twice(sink, a, b);
    lemma_put_twice(sink, a + b, n);
    lemma_put_twice(sink, a + b + n, v);
    lemma_put_twice(sink, a + b + n + v, f);
    lemma_put_twice(sink, a + b + n + v + f, k);
    assert(a + b + n + v + f + k =~= c.fixed_header_bytes() + c.head_bytes());
}

/// Putting text that fits, where it has content, puts its wire form, which
/// has two bytes and those of the text.
pub proof fn lemma_put_optional_text(sink: Sink, text: Seq<char>)
    requires
        text_fits(text),
    ensures
        put_optional_text(sink, text) == put(sink, optional_text_bytes(text)),
        optional_text_bytes(text).len() == optional_data_size(encode_utf8(text).len()),
{
    lemma_text_is_empty(text);
    if text.len() == 0 {
        assert(sink.written + optional_text_bytes(text) =~= sink.written);
        lemma_left_ahead(sink.ahead, 0, 0);
    }
}

/// Putting binary data that fits, where it has content, puts its wire form,
/// which has two bytes and those of the data.
pub proof fn lemma_put_optional_binary(sink: Sink, data: Seq<u8>)
    requires
        data.len() <= MAX_DATA_LEN,
    ensures
        put_optional_binary(sink, data) == put(sink, optional_binary_bytes(data)),
        optional_binary_bytes(data).len() == optional_data_size(data.len()),
{
    if data.len() == 0 {
        assert(sink.written + optional_binary_bytes(data) =~= sink.written);
        lemma_left_ahead(sink.ahead, 0, 0);
    }
}

/// The wire form of the will, where there is one.
pub open spec fn optional_will_bytes(will: Option<Will>) -> Seq<u8> {
    match will {
        Some(w) => w.wire_bytes(),
        None => Seq::empty(),
    }
}

/// Putting the will, where there is one that has a wire form, puts that wire form.
pub proof fn lemma_put_optional_will(sink: Sink, will: Option<Will>)
    requires
        will matches Some(w) ==> w.writable(),
    ensures
        put_optional_will(sink, will) == put(sink, optional_will_bytes(will)),
        optional_will_bytes(will).len() == match will {
            Some(w) => w.size(),
            None => 0,
        },
{
    match will {
        Some(w) => {
            lemma_put_will(sink, w);
        },
        None => {
            assert(sink.written + optional_will_bytes(will) =~= sink.written);
        lemma_left_ahead(sink.ahead, 0, 0);
        },
    }
}

/// Putting what follows the client identifier of a packet that has a wire
/// form puts that wire form.
pub proof fn lemma_put_connect_tail(sink: Sink, c: Connect)
    requires
        c.writable(),
    ensures
        put_connect_tail(sink, c) == put(sink, c.tail_bytes()),
        c.tail_bytes().len() == c.will_size() + optional_data_size(
            encode_utf8(c.user_name@).len(),
        ) + optional_data_size(c.password@.len()),
{
    let w = optional_will_bytes(c.will);
    let u = optional_text_bytes(c.user_name@);
    let s = optional_binary_bytes(c.password@);
    lemma_put_optional_will(sink, c.will);
    lemma_put_twice(sink, w, u);
    lemma_put_twice(sink, w + u, s);
    if let Ok(s1) = put(sink, w) {
        lemma_put_optional_text(s1, c.user_name@);
        if let Ok(s2) = put(s1, u) {
            lemma_put_optional_binary(s2, c.password@);
        }
    }
    lemma_put_optional_text(sink, c.user_name@);
    lemma_put_optional_binary(sink, c.password@);
    assert(c.tail_bytes() == w + u + s);
}

/// Putting what follows the keep-alive time of a packet that has a wire form
/// puts that wire form.
pub proof fn lemma_put_connect_payload(sink: Sink, c: Connect)
    requires
        c.writable(),
        entries_size(optional_entries(c.properties)) <= MAX_VARUINT32,
    ensures
        put_connect_payload(sink, c) == put(sink, c.payload_bytes()),
        c.payload_bytes().len() == c.remaining_length() - 10,
{
    let entries = optional_entries(c.properties);
    let p = block_bytes(entries);
    let i = utf8_string_bytes(c.client_id@);
    let t = c.tail_bytes();
    lemma_put_block(sink, entries);
    lemma_put_twice(sink, p, i);
    lemma_put_twice(sink, p + i, t);
    if let Ok(s2) = put(sink, p + i) {
        lemma_put_connect_tail(s2, c);
    }
    lemma_put_connect_tail(sink, c);
    assert(c.payload_bytes() == p + i + t);
}

/// A packet that has a wire form is written as that wire form, and the
/// remaining length that its fixed header announces is the number of bytes
/// that follow the fixed header.
pub proof fn lemma_connect_wire_form(c: Connect)
    requires
        c.writable(),
    ensures
        connect_packet(c) == Ok::<Seq<u8>, ErrorView>(c.wire_bytes()),
        c.wire_bytes().len() == c.fixed_header_bytes().len() + c.remaining_length(),
        1 <= varuint_bytes(c.remaining_length()).len() <= 4,
{
    reveal(connect_packet);
    let start = Sink { written: Seq::empty(), room: usize::MAX as nat, ahead: Seq::empty() };
    let entries = optional_entries(c.properties);
    lemma_varuint_bytes_len(c.remaining_length() as u32);
    lemma_connect_block_bound(c);
    lemma_put_connect_head(start, c);
    let head = c.fixed_header_bytes() + c.head_bytes();
    lemma_put_twice(start, head, c.payload_bytes());
    if let Ok(next) = put(start, head) {
        lemma_put_connect_payload(next, c);
    }
    lemma_put_connect_payload(start, c);
    assert(start.written + (head + c.payload_bytes()) =~= c.wire_bytes());
}

/// The properties of a packet are no larger than what follows its fixed header.
pub proof fn lemma_connect_block_bound(c: Connect)
    ensures
        entries_size(optional_entries(c.properties)) <= c.remaining_length(),
{
}

/// The connect flags that a packet asks for say, bit by bit, what the packet
/// holds, and pass the check of the flags.
pub proof fn lemma_connect_flags(c: Connect)
    requires
        c.will matches Some(w) ==> w.qos <= 2,
    ensures
        !flag_reserved(c.flags()),
        flag_clean_start(c.flags()) == c.clean_start,
        flag_will(c.flags()) == (c.will is Some),
        flag_will_qos(c.flags()) == match c.will {
            Some(w) => w.qos,
            None => 0,
        },
        flag_will_retain(c.flags()) == match c.will {
            Some(w) => w.retain,
            None => false,
        },
        flag_password(c.flags()) == (c.password@.len() > 0),
        flag_user_name(c.flags()) == (c.user_name@.len() > 0),
        connect_flag_error(c.flags()) is None,
{
    reveal(Connect::flags);
}

/// A block of properties that is absent, or well formed and not all absent,
/// reads back as itself after it was written with its length before it.
pub proof fn lemma_optional_block_roundtrip<P: PropertyBlock>(p: Option<P>, rest: Seq<u8>)
    requires
        p matches Some(q) ==> values_well_formed(q) && 0 < entries_size(block_entries(q))
            <= MAX_VARUINT32,
    ensures
        parse_block(block_bytes(optional_entries(p)) + rest, P::slots()) == Ok::<
            (Option<Seq<Entry>>, nat),
            CodecError,
        >(
            (
                match p {
                    Some(q) => Some(block_entries(q)),
                    None => None,
                },
                block_size(optional_entries(p)),
            ),
        ),
        block_agrees(
            p,
            match p {
                Some(q) => Some(block_entries(q)),
                None => None,
            },
        ),
        block_bytes(optional_entries(p)).len() == block_size(optional_entries(p)),
{
    match p {
        Some(q) => {
            lemma_block_roundtrip(q, rest);
            lemma_values_fit(q);
            lemma_entries_bytes_len(block_entries(q));
        },
        None => {
            let entries = optional_entries(p);
            assert(entries_size(entries) == 0);
            assert(entries_bytes(entries) =~= Seq::<u8>::empty());
            assert(block_bytes(entries) + rest =~= varuint_bytes(0) + rest);
            lemma_varuint32_roundtrip(0, rest);
        },
    }
}

/// Where every value that a structure holds is well formed, every entry of it fits.
pub proof fn lemma_values_fit<P: PropertyBlock>(p: P)
    requires
        values_well_formed(p),
    ensures
        all_fit(block_entries(p)),
{
    lemma_entries_of_fit(p, 0);
    assert(P::slots().skip(0) == P::slots());
}

proof fn lemma_entries_of_fit<P: PropertyBlock>(p: P, j: int)
    requires
        values_well_formed(p),
        0 <= j <= P::slots().len(),
    ensures
        all_fit(entries_of(p, P::slots().skip(j))),
    decreases P::slots().len() - j,
{
    let slots = P::slots();
    if j < slots.len() {
        assert(slots.skip(j)[0] == slots[j]);
        assert(slots.skip(j).skip(1) == slots.skip(j + 1));
        lemma_entries_of_fit(p, j + 1);
        let id = slots[j].id;
        let first = slot_entries(id, p.values(id));
        let second = entries_of(p, slots.skip(j + 1));
        assert forall|i: int| 0 <= i < (first + second).len() implies (#[trigger] (first
            + second)[i]).value.fits() by {
            if i < first.len() {
                assert(p.values(id)[i].well_formed());
            } else {
                assert((first + second)[i] == second[i - first.len()]);
            }
        }
    }
}

/// A will that is well formed reads back as itself after it was written,
/// with the flags that carry its quality of service and its retain flag.
pub proof fn lemma_will_roundtrip(w: Will, flag: u8, rest: Seq<u8>)
    requires
        w.well_formed(),
        flag_will_qos(flag) == w.qos,
        flag_will_retain(flag) == w.retain,
    ensures
        parse_will(w.wire_bytes() + rest, flag) == Ok::<(WillModel, nat), ErrorView>(
            (w.model(), w.size()),
        ),
        w.agrees(w.model()),
        w.wire_bytes().len() == w.size(),
{
    reveal(parse_will);
    let entries = optional_entries(w.properties);
    let b = block_bytes(entries);
    let t = utf8_string_bytes(w.topic@);
    let y = binary_bytes(w.payload@);
    let s = w.wire_bytes() + rest;
    assert(s =~= b + (t + (y + rest)));
    lemma_optional_block_roundtrip(w.properties, t + (y + rest));
    lemma_skip_first(b, t + (y + rest));
    lemma_utf8_string_roundtrip(w.topic@, y + rest);
    assert(s.skip((b.len() + t.len()) as int) =~= y + rest);
    lemma_binary_roundtrip(w.payload@, rest);
}

/// Text that fits and holds no forbidden code point reads back as itself,
/// where it was written only if it has content and is read only if it has.
pub proof fn lemma_optional_text_roundtrip(text: Seq<char>, rest: Seq<u8>)
    requires
        text_fits(text),
        allowed_chars(text),
    ensures
        parse_optional_text(optional_text_bytes(text) + rest, text.len() > 0) == Ok::<
            (Seq<char>, nat),
            ErrorView,
        >((text, optional_text_bytes(text).len())),
{
    if text.len() > 0 {
        lemma_utf8_string_roundtrip(text, rest);
    } else {
        assert(text =~= Seq::<char>::empty());
    }
}

/// Binary data that fits reads back as itself, where it was written only if
/// it has content and is read only if it has.
pub proof fn lemma_optional_binary_roundtrip(data: Seq<u8>, rest: Seq<u8>)
    requires
        data.len() <= MAX_DATA_LEN,
    ensures
        parse_optional_binary(optional_binary_bytes(data) + rest, data.len() > 0) == Ok::<
            (Seq<u8>, nat),
            ErrorView,
        >((data, optional_binary_bytes(data).len())),
{
    if data.len() > 0 {
        lemma_binary_roundtrip(data, rest);
    } else {
        assert(data =~= Seq::<u8>::empty());
    }
}

/// A will that is well formed, where there is one, reads back as itself with
/// the flags that announce it.
pub proof fn lemma_optional_will_roundtrip(will: Option<Will>, flag: u8, rest: Seq<u8>)
    requires
        will matches Some(w) ==> w.well_formed() && flag_will_qos(flag) == w.qos
            && flag_will_retain(flag) == w.retain,
        flag_will(flag) == (will is Some),
    ensures
        parse_optional_will(optional_will_bytes(will) + rest, flag) == Ok::<
            (Option<WillModel>, nat),
            ErrorView,
        >(
            (
                match will {
                    Some(w) => Some(w.model()),
                    None => None,
                },
                optional_will_bytes(will).len(),
            ),
        ),
        will matches Some(w) ==> w.agrees(w.model()),
{
    if let Some(w) = will {
        lemma_will_roundtrip(w, flag, rest);
    }
}

/// What follows the client identifier of a packet that is well formed reads
/// back as the will, the user name and the password of the packet.
#[verifier::rlimit(50)]
pub proof fn lemma_connect_tail_roundtrip(c: Connect, rest: Seq<u8>)
    requires
        c.well_formed(),
    ensures
        parse_connect_tail(c.tail_bytes() + rest, c.flags()) == Ok::<
            ((Option<WillModel>, Seq<char>, Seq<u8>), nat),
            ErrorView,
        >(((c.model().will, c.user_name@, c.password@), c.tail_bytes().len())),
        c.will matches Some(w) ==> w.agrees(w.model()),
{
    reveal(parse_connect_tail);
    let w = optional_will_bytes(c.will);
    let u = optional_text_bytes(c.user_name@);
    let p = optional_binary_bytes(c.password@);
    let s = c.tail_bytes() + rest;
    lemma_connect_flags(c);
    assert(s =~= w + (u + (p + rest)));
    lemma_optional_will_roundtrip(c.will, c.flags(), u + (p + rest));
    lemma_skip_first(w, u + (p + rest));
    lemma_optional_text_roundtrip(c.user_name@, p + rest);
    assert(s.skip((w.len() + u.len()) as int) =~= p + rest);
    lemma_optional_binary_roundtrip(c.password@, rest);
    assert(c.tail_bytes().len() == w.len() + u.len() + p.len());
}

/// What opens a packet that is well formed reads back as its connect flags.
pub proof fn lemma_connect_head_roundtrip(c: Connect, rest: Seq<u8>)
    requires
        c.will matches Some(w) ==> w.qos <= 2,
    ensures
        parse_connect_head(c.head_bytes() + rest) == Ok::<(u8, nat), ErrorView>((c.flags(), 8)),
        parse_u16((c.head_bytes() + rest).skip(8)) == Ok::<(u16, nat), CodecError>(
            (c.keep_alive, 2),
        ),
        (c.head_bytes() + rest).skip(10) == rest,
{
    reveal(parse_connect_head);
    let s = c.head_bytes() + rest;
    lemma_connect_flags(c);
    assert(s.take(6) =~= protocol_name_bytes());
    assert(s[6] == PROTOCOL_VERSION);
    assert(s[7] == c.flags());
    assert(s.skip(8) =~= u16_bytes(c.keep_alive) + rest);
    lemma_u16_roundtrip(c.keep_alive, rest);
    assert(s.skip(10) =~= rest);
}

/// A fixed header reads back as its first byte and its remaining length,
/// from one byte and the size of the length.
pub proof fn lemma_fixed_header_roundtrip(byte0: u8, remaining_len: u32, rest: Seq<u8>)
    requires
        remaining_len <= MAX_VARUINT32,
    ensures
        parse_fixed_header(seq![byte0] + varuint_bytes(remaining_len as nat) + rest) == Ok::<
            ((u8, u32), nat),
            ErrorView,
        >(((byte0, remaining_len), 1 + varuint_bytes(remaining_len as nat).len())),
{
    reveal(parse_fixed_header);
    let length = varuint_bytes(remaining_len as nat);
    let s = seq![byte0] + length + rest;
    assert(s.skip(1) =~= length + rest);
    lemma_varuint32_roundtrip(remaining_len, rest);
    lemma_varuint_bytes_len(remaining_len);
}

/// Where the parts of a CONNECT packet read as they do, one behind the
/// other, the packet reads as the whole of them.
pub proof fn lemma_parse_connect_parts(
    s: Seq<u8>,
    flag: u8,
    keep_alive: u16,
    properties: Option<Seq<Entry>>,
    n2: nat,
    client_id: Seq<char>,
    n3: nat,
    tail: (Option<WillModel>, Seq<char>, Seq<u8>),
    n4: nat,
)
    requires
        parse_connect_head(s) == Ok::<(u8, nat), ErrorView>((flag, 8)),
        parse_u16(s.skip(8)) == Ok::<(u16, nat), CodecError>((keep_alive, 2)),
        parse_block(s.skip(10), ConnectProperties::slots()) == Ok::<
            (Option<Seq<Entry>>, nat),
            CodecError,
        >((properties, n2)),
        parse_utf8_string(s.skip((10 + n2) as int)) == Ok::<(Seq<char>, nat), CodecError>(
            (client_id, n3),
        ),
        parse_connect_tail(s.skip((10 + n2 + n3) as int), flag) == Ok::<
            ((Option<WillModel>, Seq<char>, Seq<u8>), nat),
            ErrorView,
        >((tail, n4)),
    ensures
        parse_connect(s) == Ok::<(ConnectModel, nat), ErrorView>(
            (
                ConnectModel {
                    clean_start: flag_clean_start(flag),
                    keep_alive,
                    properties,
                    client_id,
                    will: tail.0,
                    user_name: tail.1,
                    password: tail.2,
                },
                10 + n2 + n3 + n4,
            ),
        ),
{
    reveal(parse_connect);
}

/// A packet that is well formed reads back as itself after it was written:
/// its fixed header reads as the type CONNECT and the remaining length, and
/// what follows reads as a packet that holds, field for field and slot for
/// slot, what the packet held, from exactly as many bytes as the remaining
/// length says.
pub proof fn lemma_connect_roundtrip(c: Connect, rest: Seq<u8>)
    requires
        c.well_formed(),
    ensures
        connect_packet(c) == Ok::<Seq<u8>, ErrorView>(c.wire_bytes()),
        parse_fixed_header(c.wire_bytes() + rest) == Ok::<((u8, u32), nat), ErrorView>(
            ((0x10u8, c.remaining_length() as u32), c.fixed_header_bytes().len()),
        ),
        parse_connect((c.wire_bytes() + rest).skip(c.fixed_header_bytes().len() as int)) == Ok::<
            (ConnectModel, nat),
            ErrorView,
        >((c.model(), c.remaining_length())),
        c.agrees(c.model()),
{
    lemma_connect_wire_form(c);
    let whole = c.wire_bytes() + rest;
    let fixed = c.fixed_header_bytes();
    let body = c.head_bytes() + (c.payload_bytes() + rest);
    assert(whole == fixed + body) by {
        assert(whole =~= fixed + body);
    }
    assert(parse_fixed_header(whole) == Ok::<((u8, u32), nat), ErrorView>(
        ((0x10u8, c.remaining_length() as u32), fixed.len()),
    )) by {
        lemma_fixed_header_roundtrip(0x10u8, c.remaining_length() as u32, body);
    }
    assert(whole.skip(fixed.len() as int) == body) by {
        lemma_skip_first(fixed, body);
    }
    lemma_connect_body_roundtrip(c, rest);
}

/// The packet holds what its own plain values say.
pub proof fn lemma_connect_agrees(c: Connect)
    requires
        c.protocol_name@ == PROTOCOL_NAME@,
        c.protocol_version == PROTOCOL_VERSION,
    ensures
        c.agrees(c.model()),
{
    if let Some(p) = c.properties {
        lemma_holds_own_entries(p);
    }
    if let Some(w) = c.will {
        if let Some(p) = w.properties {
            lemma_holds_own_entries(p);
        }
    }
}

/// Where the parts of a sequence begin that is made of ten bytes and three
/// parts behind them.
pub proof fn lemma_body_positions(head: Seq<u8>, first: Seq<u8>, second: Seq<u8>, third: Seq<u8>)
    requires
        head.len() == 10,
    ensures
        (head + (first + (second + third))).skip(10) == first + (second + third),
        (head + (first + (second + third))).skip((10 + first.len()) as int) == second + third,
        (head + (first + (second + third))).skip((10 + first.len() + second.len()) as int)
            == third,
{
    let s = head + (first + (second + third));
    assert(s.skip(10) =~= first + (second + third));
    assert(s.skip((10 + first.len()) as int) =~= second + third);
    assert(s.skip((10 + first.len() + second.len()) as int) =~= third);
}

/// The parts of what follows the keep-alive time of a packet that has a
/// wire form make up, with the ten bytes before them, the remaining length.
#[verifier::rlimit(50)]
pub proof fn lemma_connect_payload_len(c: Connect)
    requires
        c.writable(),
    ensures
        c.head_bytes().len() == 10,
        c.payload_bytes() == block_bytes(optional_entries(c.properties)) + (utf8_string_bytes(
            c.client_id@,
        ) + c.tail_bytes()),
        10 + block_bytes(optional_entries(c.properties)).len() + utf8_string_bytes(
            c.client_id@,
        ).len() + c.tail_bytes().len() == c.remaining_length(),
{
    let b = block_bytes(optional_entries(c.properties));
    let i = utf8_string_bytes(c.client_id@);
    let t = c.tail_bytes();
    lemma_connect_block_bound(c);
    lemma_put_connect_payload(Sink { written: Seq::empty(), room: 0, ahead: Seq::empty() }, c);
    assert(c.payload_bytes() =~= b + (i + t));
    assert(c.payload_bytes().len() == b.len() + i.len() + t.len());
}

/// What follows the fixed header of a packet that is well formed reads back
/// as the packet.
#[verifier::rlimit(40)]
pub proof fn lemma_connect_body_roundtrip(c: Connect, rest: Seq<u8>)
    requires
        c.well_formed(),
    ensures
        parse_connect(c.head_bytes() + (c.payload_bytes() + rest)) == Ok::<
            (ConnectModel, nat),
            ErrorView,
        >((c.model(), c.remaining_length())),
        c.agrees(c.model()),
{
    let entries = optional_entries(c.properties);
    let b = block_bytes(entries);
    let i = utf8_string_bytes(c.client_id@);
    let t = c.tail_bytes();
    let after_head = b + (i + (t + rest));
    let s = c.head_bytes() + after_head;
    let model = c.model();
    lemma_connect_agrees(c);
    lemma_connect_payload_len(c);
    assert(c.payload_bytes() + rest == after_head) by {
        assert(b + (i + t) + rest =~= after_head);
    }
    lemma_body_positions(c.head_bytes(), b, i, t + rest);
    assert(parse_connect_head(s) == Ok::<(u8, nat), ErrorView>((c.flags(), 8)) && parse_u16(
        s.skip(8),
    ) == Ok::<(u16, nat), CodecError>((c.keep_alive, 2))) by {
        lemma_connect_head_roundtrip(c, after_head);
    }
    assert(parse_block(b + (i + (t + rest)), ConnectProperties::slots()) == Ok::<
        (Option<Seq<Entry>>, nat),
        CodecError,
    >((model.properties, b.len()))) by {
        lemma_connect_block_bound(c);
        lemma_optional_block_roundtrip(c.properties, i + (t + rest));
    }
    assert(parse_utf8_string(i + (t + rest)) == Ok::<(Seq<char>, nat), CodecError>(
        (c.client_id@, i.len()),
    )) by {
        lemma_utf8_string_roundtrip(c.client_id@, t + rest);
    }
    assert(parse_connect_tail(t + rest, c.flags()) == Ok::<
        ((Option<WillModel>, Seq<char>, Seq<u8>), nat),
        ErrorView,
    >(((model.will, c.user_name@, c.password@), t.len()))) by {
        lemma_connect_tail_roundtrip(c, rest);
    }
    lemma_parse_connect_parts(
        s,
        c.flags(),
        c.keep_alive,
        model.properties,
        b.len(),
        c.client_id@,
        i.len(),
        (model.will, c.user_name@, c.password@),
        t.len(),
    );
    assert(model.clean_start == flag_clean_start(c.flags())) by {
        lemma_connect_flags(c);
    }
}

} // verus!
