//! The CONNECT packet: its properties, the will that it may carry, and the
//! reading and the writing of the whole.

use vstd::prelude::*;
use vstd::string::StringExecFns;
use vstd::utf8::*;
use crate::errors::{block_error, lift, lift_block, Error, ErrorView};
use crate::mqttio::errors::Error as CodecError;
use crate::mqttio::block::{
    binary_slot, binary_values, block_entries, block_len, bool_slot, capped, entries_size, holds,
    optional_values, pair_slot, parse_block, put_entries, read_block, reads_block, slot_of,
    text_slot, text_values, u16_slot, u32_slot, values_view, write_block, Entry, PropertyBlock,
    PropertySlot, PropertyValue,
};
use crate::mqttio::block::within_limit;
use crate::mqttio::io::{
    parse_binary, parse_u16, parse_utf8_string, put, put_binary, put_utf8_string, put_varuint32,
    reads, string_from_utf8, u16_bytes, varuint32_size, varuint_bytes, wrote, Cursor,
    KeyValuePair, Reader, Sink, Source, VarUint32Size, Writer, MAX_VARUINT32,
};
use crate::mqttio::properties::{pair_values, PropertyID, Value};
use crate::mqttio::roundtrip::lemma_varuint_bytes_len;
use crate::packet::packet::PacketType;

verus! {

/// The properties of a will.
#[derive(Debug)]
pub struct WillProperties {
    pub will_delay_interval: Option<u32>,
    pub payload_format_indicator: Option<bool>,
    pub message_expiry_interval: Option<u32>,
    pub content_type: String,
    pub response_topic: String,
    pub correlation_data: Vec<u8>,
    pub user_property: Vec<KeyValuePair>,
}

impl Default for WillProperties {
    fn default() -> (p: Self)
        ensures
            forall|id: PropertyID| (#[trigger] p.values(id)).len() == 0,
    {
        WillProperties {
            will_delay_interval: None,
            payload_format_indicator: None,
            message_expiry_interval: None,
            content_type: String::new(),
            response_topic: String::new(),
            correlation_data: Vec::new(),
            user_property: Vec::new(),
        }
    }
}

impl PropertyBlock for WillProperties {
    open spec fn slots() -> Seq<PropertySlot> {
        seq![
            PropertySlot { id: PropertyID::WillDelayInterval, repeatable: false },
            PropertySlot { id: PropertyID::PayloadFormatIndicator, repeatable: false },
            PropertySlot { id: PropertyID::MessageExpiryInterval, repeatable: false },
            PropertySlot { id: PropertyID::ContentType, repeatable: false },
            PropertySlot { id: PropertyID::ResponseTopic, repeatable: false },
            PropertySlot { id: PropertyID::CorrelationData, repeatable: false },
            PropertySlot { id: PropertyID::UserProperty, repeatable: true },
        ]
    }

    open spec fn values(&self, id: PropertyID) -> Seq<Value> {
        match id {
            PropertyID::WillDelayInterval => optional_values(
                match self.will_delay_interval {
                    Some(v) => Some(Value::FourByteInteger(v)),
                    None => None,
                },
            ),
            PropertyID::PayloadFormatIndicator => optional_values(
                match self.payload_format_indicator {
                    Some(v) => Some(Value::Bool(v)),
                    None => None,
                },
            ),
            PropertyID::MessageExpiryInterval => optional_values(
                match self.message_expiry_interval {
                    Some(v) => Some(Value::FourByteInteger(v)),
                    None => None,
                },
            ),
            PropertyID::ContentType => text_values(self.content_type@),
            PropertyID::ResponseTopic => text_values(self.response_topic@),
            PropertyID::CorrelationData => binary_values(self.correlation_data@),
            PropertyID::UserProperty => pair_values(self.user_property@),
            _ => Seq::empty(),
        }
    }

    proof fn lemma_slots(i: int, j: int) {
    }

    proof fn lemma_values(&self, id: PropertyID) {
        reveal_with_fuel(slot_of, 12);
    }

    fn table() -> (t: Vec<PropertySlot>) {
        let mut t: Vec<PropertySlot> = Vec::new();
        t.push(PropertySlot { id: PropertyID::WillDelayInterval, repeatable: false });
        t.push(PropertySlot { id: PropertyID::PayloadFormatIndicator, repeatable: false });
        t.push(PropertySlot { id: PropertyID::MessageExpiryInterval, repeatable: false });
        t.push(PropertySlot { id: PropertyID::ContentType, repeatable: false });
        t.push(PropertySlot { id: PropertyID::ResponseTopic, repeatable: false });
        t.push(PropertySlot { id: PropertyID::CorrelationData, repeatable: false });
        t.push(PropertySlot { id: PropertyID::UserProperty, repeatable: true });
        assert(t@ =~= Self::slots());
        t
    }

    fn empty() -> (p: Self) {
        Default::default()
    }

    fn get(&self, id: PropertyID) -> (v: Vec<PropertyValue>) {
        match id {
            PropertyID::WillDelayInterval => u32_slot(&self.will_delay_interval),
            PropertyID::PayloadFormatIndicator => bool_slot(&self.payload_format_indicator),
            PropertyID::MessageExpiryInterval => u32_slot(&self.message_expiry_interval),
            PropertyID::ContentType => text_slot(&self.content_type),
            PropertyID::ResponseTopic => text_slot(&self.response_topic),
            PropertyID::CorrelationData => binary_slot(&self.correlation_data),
            PropertyID::UserProperty => pair_slot(&self.user_property),
            _ => {
                let v: Vec<PropertyValue> = Vec::new();
                assert(values_view(v@) =~= Seq::empty());
                v
            },
        }
    }

    fn set(&mut self, id: PropertyID, value: PropertyValue) {
        proof {
            reveal_with_fuel(slot_of, 12);
        }
        match id {
            PropertyID::WillDelayInterval => {
                if let PropertyValue::FourByteInteger(v) = value {
                    self.will_delay_interval = Some(v);
                }
            },
            PropertyID::PayloadFormatIndicator => {
                if let PropertyValue::Bool(v) = value {
                    self.payload_format_indicator = Some(v);
                }
            },
            PropertyID::MessageExpiryInterval => {
                if let PropertyValue::FourByteInteger(v) = value {
                    self.message_expiry_interval = Some(v);
                }
            },
            PropertyID::ContentType => {
                if let PropertyValue::Utf8String(v) = value {
                    self.content_type = v;
                }
            },
            PropertyID::ResponseTopic => {
                if let PropertyValue::Utf8String(v) = value {
                    self.response_topic = v;
                }
            },
            PropertyID::CorrelationData => {
                if let PropertyValue::BinaryData(v) = value {
                    self.correlation_data = v;
                }
            },
            PropertyID::UserProperty => {
                if let PropertyValue::Utf8StringPair(k, v) = value {
                    let ghost held = self.user_property@;
                    self.user_property.push((k, v));
                    assert(pair_values(self.user_property@) =~= pair_values(held).push(
                        Value::Utf8StringPair(k@, v@),
                    ));
                }
            },
            _ => {},
        }
    }
}

impl WillProperties {
    /// Reads the length of the block and then the properties that use it up.
    /// A block of length zero is absent. An identifier that the block does
    /// not hold, and a second value for a slot that takes one, are packet
    /// failures of their own; any other failure is that of the codec.
    pub fn read<R: Reader>(r: &mut R) -> (res: Result<Option<WillProperties>, Error>)
        ensures
            reads_block(
                old(r).source(),
                final(r).source(),
                res,
                parse_packet_block(old(r).source().remaining, Self::slots()),
            ),
    {
        lift_block(read_block(r))
    }

    /// Writes the properties that are present, in the order of the table,
    /// without the length of the block before them.
    pub fn write<W: Writer>(&self, w: &mut W) -> (r: Result<(), CodecError>)
        ensures
            wrote(final(w).sink(), r, put_entries(old(w).sink(), block_entries(*self))),
    {
        write_block(self, w)
    }

    /// The size of the properties on the wire: for each one that is present
    /// one byte and the size of its value. Nothing where that is more than
    /// the largest variable-length integer.
    pub fn len(&self) -> (n: Option<u32>)
        ensures
            n == capped(entries_size(block_entries(*self))),
    {
        block_len(self)
    }
}

/// The properties of a CONNECT packet.
#[derive(Debug)]
pub struct ConnectProperties {
    pub session_expiry_interval: Option<u32>,
    pub receive_maximum: Option<u16>,
    pub maximum_packet_size: Option<u32>,
    pub topic_alias_maximum: Option<u16>,
    pub request_problem_info: Option<bool>,
    pub request_response_info: Option<bool>,
    pub user_property: Vec<KeyValuePair>,
    pub authentication_method: String,
    pub authentication_data: Vec<u8>,
}

impl Default for ConnectProperties {
    fn default() -> (p: Self)
        ensures
            forall|id: PropertyID| (#[trigger] p.values(id)).len() == 0,
    {
        ConnectProperties {
            session_expiry_interval: None,
            receive_maximum: None,
            maximum_packet_size: None,
            topic_alias_maximum: None,
            request_problem_info: None,
            request_response_info: None,
            user_property: Vec::new(),
            authentication_method: String::new(),
            authentication_data: Vec::new(),
        }
    }
}

impl PropertyBlock for ConnectProperties {
    open spec fn slots() -> Seq<PropertySlot> {
        seq![
            PropertySlot { id: PropertyID::SessionExpiryInterval, repeatable: false },
            PropertySlot { id: PropertyID::ReceiveMaximum, repeatable: false },
            PropertySlot { id: PropertyID::MaximumPacketSize, repeatable: false },
            PropertySlot { id: PropertyID::TopicAliasMaximum, repeatable: false },
            PropertySlot { id: PropertyID::RequestProblemInfo, repeatable: false },
            PropertySlot { id: PropertyID::RequestResponseInfo, repeatable: false },
            PropertySlot { id: PropertyID::UserProperty, repeatable: true },
            PropertySlot { id: PropertyID::AuthenticationMethod, repeatable: false },
            PropertySlot { id: PropertyID::AuthenticationData, repeatable: false },
        ]
    }

    open spec fn values(&self, id: PropertyID) -> Seq<Value> {
        match id {
            PropertyID::SessionExpiryInterval => optional_values(
                match self.session_expiry_interval {
                    Some(v) => Some(Value::FourByteInteger(v)),
                    None => None,
                },
            ),
            PropertyID::ReceiveMaximum => optional_values(
                match self.receive_maximum {
                    Some(v) => Some(Value::TwoByteInteger(v)),
                    None => None,
                },
            ),
            PropertyID::MaximumPacketSize => optional_values(
                match self.maximum_packet_size {
                    Some(v) => Some(Value::FourByteInteger(v)),
                    None => None,
                },
            ),
            PropertyID::TopicAliasMaximum => optional_values(
                match self.topic_alias_maximum {
                    Some(v) => Some(Value::TwoByteInteger(v)),
                    None => None,
                },
            ),
            PropertyID::RequestProblemInfo => optional_values(
                match self.request_problem_info {
                    Some(v) => Some(Value::Bool(v)),
                    None => None,
                },
            ),
            PropertyID::RequestResponseInfo => optional_values(
                match self.request_response_info {
                    Some(v) => Some(Value::Bool(v)),
                    None => None,
                },
            ),
            PropertyID::UserProperty => pair_values(self.user_property@),
            PropertyID::AuthenticationMethod => text_values(self.authentication_method@),
            PropertyID::AuthenticationData => binary_values(self.authentication_data@),
            _ => Seq::empty(),
        }
    }

    proof fn lemma_slots(i: int, j: int) {
    }

    proof fn lemma_values(&self, id: PropertyID) {
        reveal_with_fuel(slot_of, 12);
    }

    fn table() -> (t: Vec<PropertySlot>) {
        let mut t: Vec<PropertySlot> = Vec::new();
        t.push(PropertySlot { id: PropertyID::SessionExpiryInterval, repeatable: false });
        t.push(PropertySlot { id: PropertyID::ReceiveMaximum, repeatable: false });
        t.push(PropertySlot { id: PropertyID::MaximumPacketSize, repeatable: false });
        t.push(PropertySlot { id: PropertyID::TopicAliasMaximum, repeatable: false });
        t.push(PropertySlot { id: PropertyID::RequestProblemInfo, repeatable: false });
        t.push(PropertySlot { id: PropertyID::RequestResponseInfo, repeatable: false });
        t.push(PropertySlot { id: PropertyID::UserProperty, repeatable: true });
        t.push(PropertySlot { id: PropertyID::AuthenticationMethod, repeatable: false });
        t.push(PropertySlot { id: PropertyID::AuthenticationData, repeatable: false });
        assert(t@ =~= Self::slots());
        t
    }

    fn empty() -> (p: Self) {
        Default::default()
    }

    fn get(&self, id: PropertyID) -> (v: Vec<PropertyValue>) {
        match id {
            PropertyID::SessionExpiryInterval => u32_slot(&self.session_expiry_interval),
            PropertyID::ReceiveMaximum => u16_slot(&self.receive_maximum),
            PropertyID::MaximumPacketSize => u32_slot(&self.maximum_packet_size),
            PropertyID::TopicAliasMaximum => u16_slot(&self.topic_alias_maximum),
            PropertyID::RequestProblemInfo => bool_slot(&self.request_problem_info),
            PropertyID::RequestResponseInfo => bool_slot(&self.request_response_info),
            PropertyID::UserProperty => pair_slot(&self.user_property),
            PropertyID::AuthenticationMethod => text_slot(&self.authentication_method),
            PropertyID::AuthenticationData => binary_slot(&self.authentication_data),
            _ => {
                let v: Vec<PropertyValue> = Vec::new();
                assert(values_view(v@) =~= Seq::empty());
                v
            },
        }
    }

    fn set(&mut self, id: PropertyID, value: PropertyValue) {
        proof {
            reveal_with_fuel(slot_of, 12);
        }
        match id {
            PropertyID::SessionExpiryInterval => {
                if let PropertyValue::FourByteInteger(v) = value {
                    self.session_expiry_interval = Some(v);
                }
            },
            PropertyID::ReceiveMaximum => {
                if let PropertyValue::TwoByteInteger(v) = value {
                    self.receive_maximum = Some(v);
                }
            },
            PropertyID::MaximumPacketSize => {
                if let PropertyValue::FourByteInteger(v) = value {
                    self.maximum_packet_size = Some(v);
                }
            },
            PropertyID::TopicAliasMaximum => {
                if let PropertyValue::TwoByteInteger(v) = value {
                    self.topic_alias_maximum = Some(v);
                }
            },
            PropertyID::RequestProblemInfo => {
                if let PropertyValue::Bool(v) = value {
                    self.request_problem_info = Some(v);
                }
            },
            PropertyID::RequestResponseInfo => {
                if let PropertyValue::Bool(v) = value {
                    self.request_response_info = Some(v);
                }
            },
            PropertyID::UserProperty => {
                if let PropertyValue::Utf8StringPair(k, v) = value {
                    let ghost held = self.user_property@;
                    self.user_property.push((k, v));
                    assert(pair_values(self.user_property@) =~= pair_values(held).push(
                        Value::Utf8StringPair(k@, v@),
                    ));
                }
            },
            PropertyID::AuthenticationMethod => {
                if let PropertyValue::Utf8String(v) = value {
                    self.authentication_method = v;
                }
            },
            PropertyID::AuthenticationData => {
                if let PropertyValue::BinaryData(v) = value {
                    self.authentication_data = v;
                }
            },
            _ => {},
        }
    }
}

impl ConnectProperties {
    /// Reads the length of the block and then the properties that use it up.
    /// A block of length zero is absent. An identifier that the block does
    /// not hold, and a second value for a slot that takes one, are packet
    /// failures of their own; any other failure is that of the codec.
    pub fn read<R: Reader>(r: &mut R) -> (res: Result<Option<ConnectProperties>, Error>)
        ensures
            reads_block(
                old(r).source(),
                final(r).source(),
                res,
                parse_packet_block(old(r).source().remaining, Self::slots()),
            ),
    {
        lift_block(read_block(r))
    }

    /// Writes the properties that are present, in the order of the table,
    /// without the length of the block before them.
    pub fn write<W: Writer>(&self, w: &mut W) -> (r: Result<(), CodecError>)
        ensures
            wrote(final(w).sink(), r, put_entries(old(w).sink(), block_entries(*self))),
    {
        write_block(self, w)
    }

    /// The size of the properties on the wire: for each one that is present
    /// one byte and the size of its value. Nothing where that is more than
    /// the largest variable-length integer.
    pub fn len(&self) -> (n: Option<u32>)
        ensures
            n == capped(entries_size(block_entries(*self))),
    {
        block_len(self)
    }
}

/// The will of a client: what is to be published for it when it is gone.
#[derive(Debug)]
pub struct Will {
    pub qos: u8,
    pub retain: bool,
    pub properties: Option<WillProperties>,
    pub topic: String,
    pub payload: Vec<u8>,
}

impl Default for Will {
    fn default() -> (w: Self)
        ensures
            w.qos == 0,
            !w.retain,
            w.properties is None,
            w.topic@.len() == 0,
            w.payload@.len() == 0,
    {
        Will { qos: 0, retain: false, properties: None, topic: String::new(), payload: Vec::new() }
    }
}

/// The CONNECT packet.
#[derive(Debug)]
pub struct Connect {
    pub protocol_name: &'static str,
    pub protocol_version: u8,
    pub clean_start: bool,
    pub keep_alive: u16,
    pub will: Option<Will>,
    pub properties: Option<ConnectProperties>,
    pub client_id: String,
    pub user_name: String,
    pub password: Vec<u8>,
}

impl Default for Connect {
    fn default() -> (c: Self)
        ensures
            c.protocol_name@.len() == 0,
            c.protocol_version == 0,
            !c.clean_start,
            c.keep_alive == 0,
            c.will is None,
            c.properties is None,
            c.client_id@.len() == 0,
            c.user_name@.len() == 0,
            c.password@.len() == 0,
    {
        proof {
            reveal_strlit("");
        }
        Connect {
            protocol_name: "",
            protocol_version: 0,
            clean_start: false,
            keep_alive: 0,
            will: None,
            properties: None,
            client_id: String::new(),
            user_name: String::new(),
            password: Vec::new(),
        }
    }
}

/// A will as plain values.
pub struct WillModel {
    pub qos: u8,
    pub retain: bool,
    pub properties: Option<Seq<Entry>>,
    pub topic: Seq<char>,
    pub payload: Seq<u8>,
}

/// A CONNECT packet as plain values: what stands on the wire behind the
/// protocol name and version.
pub struct ConnectModel {
    pub clean_start: bool,
    pub keep_alive: u16,
    pub properties: Option<Seq<Entry>>,
    pub client_id: Seq<char>,
    pub will: Option<WillModel>,
    pub user_name: Seq<char>,
    pub password: Seq<u8>,
}

/// A block of properties that was read agrees with the entries on the wire:
/// it is absent where there were none, and holds what they assign where there were.
pub open spec fn block_agrees<P: PropertyBlock>(p: Option<P>, entries: Option<Seq<Entry>>) -> bool {
    match (p, entries) {
        (None, None) => true,
        (Some(p), Some(entries)) => holds(p, entries),
        _ => false,
    }
}

impl Will {
    /// The will holds what the plain values say.
    pub open spec fn agrees(self, m: WillModel) -> bool {
        &&& self.qos == m.qos
        &&& self.retain == m.retain
        &&& block_agrees(self.properties, m.properties)
        &&& self.topic@ == m.topic
        &&& self.payload@ == m.payload
    }
}

impl Connect {
    /// The packet holds what the plain values say, under the protocol name
    /// MQTT and the version 5.
    pub open spec fn agrees(self, m: ConnectModel) -> bool {
        &&& self.protocol_name@ == PROTOCOL_NAME@
        &&& self.protocol_version == PROTOCOL_VERSION
        &&& self.clean_start == m.clean_start
        &&& self.keep_alive == m.keep_alive
        &&& block_agrees(self.properties, m.properties)
        &&& self.client_id@ == m.client_id
        &&& match (self.will, m.will) {
            (None, None) => true,
            (Some(w), Some(wm)) => w.agrees(wm),
            _ => false,
        }
        &&& self.user_name@ == m.user_name
        &&& self.password@ == m.password
    }
}

/// The protocol name.
pub const PROTOCOL_NAME: &'static str = "MQTT";

/// The protocol version.
pub const PROTOCOL_VERSION: u8 = 5;

/// What stands for a protocol name that is no text.
pub const MALFORMED_NAME: &'static str = "malformed content";

/// The six bytes of the protocol name on the wire: the length 4, then MQTT.
pub open spec fn protocol_name_bytes() -> Seq<u8> {
    seq![0u8, 4u8, 0x4du8, 0x51u8, 0x54u8, 0x54u8]
}

/// The lowest bit of the connect flags, which is reserved. The bits above it
/// are, in this order: clean start, will, two bits of the quality of service
/// of the will, will retain, password, user name.
pub open spec fn flag_reserved(flag: u8) -> bool {
    flag % 2 == 1
}

/// The bit for clean start.
pub open spec fn flag_clean_start(flag: u8) -> bool {
    flag / 2 % 2 == 1
}

/// The bit that announces a will.
pub open spec fn flag_will(flag: u8) -> bool {
    flag / 4 % 2 == 1
}

/// The two bits of the quality of service of the will.
pub open spec fn flag_will_qos(flag: u8) -> u8 {
    (flag / 8 % 4) as u8
}

/// The bit for the retaining of the will.
pub open spec fn flag_will_retain(flag: u8) -> bool {
    flag / 32 % 2 == 1
}

/// The bit that announces a password.
pub open spec fn flag_password(flag: u8) -> bool {
    flag / 64 % 2 == 1
}

/// The bit that announces a user name.
pub open spec fn flag_user_name(flag: u8) -> bool {
    flag / 128 % 2 == 1
}

/// What is wrong with the connect flags, if anything: the reserved bit is set;
/// the quality of service of the will is 3, or not 0 without a will; the will
/// is to be retained without a will.
pub open spec fn connect_flag_error(flag: u8) -> Option<ErrorView> {
    if flag_reserved(flag) {
        Some(ErrorView::InvalidConnectFlags)
    } else if (flag_will(flag) && flag_will_qos(flag) > 2) || (!flag_will(flag) && flag_will_qos(
        flag,
    ) != 0) {
        Some(ErrorView::InvalidWillQos)
    } else if !flag_will(flag) && flag_will_retain(flag) {
        Some(ErrorView::InvalidWillRetain)
    } else {
        None
    }
}

/// Checks the connect flags.
pub fn validate_connect_flag(flag: u8) -> (r: Result<(), Error>)
    ensures
        match connect_flag_error(flag) {
            Some(e) => r matches Err(g) && g@ == e,
            None => r is Ok,
        },
{
    if flag % 2 != 0 {
        return Err(Error::InvalidConnectFlags);
    }
    let will_flag = flag / 4 % 2 != 0;
    let will_qos = flag / 8 % 4;
    let will_retain = flag / 32 % 2 != 0;
    if (will_flag && (will_qos > 2)) || (!will_flag && will_qos != 0) {
        return Err(Error::InvalidWillQos);
    }
    if !will_flag && will_retain {
        return Err(Error::InvalidWillRetain);
    }
    Ok(())
}

/// The text that is reported for a protocol name that is not the expected
/// one: the six bytes as text, where they are text.
pub open spec fn found_name(bytes: Seq<u8>) -> Seq<char> {
    if valid_utf8(bytes) {
        decode_utf8(bytes)
    } else {
        MALFORMED_NAME@
    }
}

/// Reading a block of properties of a packet: as the block is read, with its
/// failure as a packet failure.
pub open spec fn parse_packet_block(s: Seq<u8>, slots: Seq<PropertySlot>) -> Result<
    (Option<Seq<Entry>>, nat),
    ErrorView,
> {
    match parse_block(s, slots) {
        Ok(found) => Ok(found),
        Err(e) => Err(block_error(e)),
    }
}

/// A read that left the source `n` bytes further on.
pub open spec fn advanced(before: Source, after: Source, n: nat) -> bool {
    &&& after.input == before.input
    &&& n <= before.remaining.len()
    &&& after.remaining == before.remaining.skip(n as int)
}

/// Reading the will: its properties, its topic and its payload. The quality of
/// service and the retain flag come from the connect flags.
#[verifier::opaque]
pub open spec fn parse_will(s: Seq<u8>, flag: u8) -> Result<(WillModel, nat), ErrorView> {
    match parse_packet_block(s, WillProperties::slots()) {
        Err(e) => Err(e),
        Ok((properties, n1)) => match parse_utf8_string(s.skip(n1 as int)) {
            Err(e) => Err(ErrorView::IOError(e)),
            Ok((topic, n2)) => match parse_binary(s.skip((n1 + n2) as int)) {
                Err(e) => Err(ErrorView::IOError(e)),
                Ok((payload, n3)) => Ok(
                    (
                        WillModel {
                            qos: flag_will_qos(flag),
                            retain: flag_will_retain(flag),
                            properties,
                            topic,
                            payload,
                        },
                        n1 + n2 + n3,
                    ),
                ),
            },
        },
    }
}

/// Reading what opens a CONNECT packet: the protocol name, the version and
/// the connect flags. Gives the flags.
#[verifier::opaque]
pub open spec fn parse_connect_head(s: Seq<u8>) -> Result<(u8, nat), ErrorView> {
    if s.len() < 6 {
        Err(ErrorView::IOError(CodecError::MalformedPacket))
    } else if s.take(6) != protocol_name_bytes() {
        Err(ErrorView::InvalidProtocolName(found_name(s.take(6))))
    } else if s.len() < 7 {
        Err(ErrorView::IOError(CodecError::MalformedPacket))
    } else if s[6] != PROTOCOL_VERSION {
        Err(ErrorView::InvalidProtocolVersion)
    } else if s.len() < 8 {
        Err(ErrorView::IOError(CodecError::MalformedPacket))
    } else {
        match connect_flag_error(s[7]) {
            Some(e) => Err(e),
            None => Ok((s[7], 8)),
        }
    }
}

/// Reading the will, where the connect flags announce one.
pub open spec fn parse_optional_will(s: Seq<u8>, flag: u8) -> Result<
    (Option<WillModel>, nat),
    ErrorView,
> {
    if flag_will(flag) {
        match parse_will(s, flag) {
            Ok((will, n)) => Ok((Some(will), n)),
            Err(e) => Err(e),
        }
    } else {
        Ok((None, 0))
    }
}

/// Reading text that stands on the wire only where `present` says so.
pub open spec fn parse_optional_text(s: Seq<u8>, present: bool) -> Result<
    (Seq<char>, nat),
    ErrorView,
> {
    if present {
        match parse_utf8_string(s) {
            Ok(found) => Ok(found),
            Err(e) => Err(ErrorView::IOError(e)),
        }
    } else {
        Ok((Seq::empty(), 0))
    }
}

/// Reading binary data that stands on the wire only where `present` says so.
pub open spec fn parse_optional_binary(s: Seq<u8>, present: bool) -> Result<
    (Seq<u8>, nat),
    ErrorView,
> {
    if present {
        match parse_binary(s) {
            Ok(found) => Ok(found),
            Err(e) => Err(ErrorView::IOError(e)),
        }
    } else {
        Ok((Seq::empty(), 0))
    }
}

/// Reading what follows the client identifier: the will, the user name and
/// the password, each where its flag is set.
#[verifier::opaque]
pub open spec fn parse_connect_tail(s: Seq<u8>, flag: u8) -> Result<
    ((Option<WillModel>, Seq<char>, Seq<u8>), nat),
    ErrorView,
> {
    match parse_optional_will(s, flag) {
        Err(e) => Err(e),
        Ok((will, n1)) => match parse_optional_text(s.skip(n1 as int), flag_user_name(flag)) {
            Err(e) => Err(e),
            Ok((user_name, n2)) => match parse_optional_binary(
                s.skip((n1 + n2) as int),
                flag_password(flag),
            ) {
                Err(e) => Err(e),
                Ok((password, n3)) => Ok(((will, user_name, password), n1 + n2 + n3)),
            },
        },
    }
}

/// Reading a CONNECT packet behind its fixed header: the protocol name, the
/// version, the connect flags, the keep-alive time, the properties, the client
/// identifier, and then the will, the user name and the password, each where
/// its flag is set.
#[verifier::opaque]
pub open spec fn parse_connect(s: Seq<u8>) -> Result<(ConnectModel, nat), ErrorView> {
    match parse_connect_head(s) {
        Err(e) => Err(e),
        Ok((flag, n0)) => match parse_u16(s.skip(n0 as int)) {
            Err(e) => Err(ErrorView::IOError(e)),
            Ok((keep_alive, n1)) => match parse_packet_block(
                s.skip((n0 + n1) as int),
                ConnectProperties::slots(),
            ) {
                Err(e) => Err(e),
                Ok((properties, n2)) => match parse_utf8_string(s.skip((n0 + n1 + n2) as int)) {
                    Err(e) => Err(ErrorView::IOError(e)),
                    Ok((client_id, n3)) => match parse_connect_tail(
                        s.skip((n0 + n1 + n2 + n3) as int),
                        flag,
                    ) {
                        Err(e) => Err(e),
                        Ok((tail, n4)) => Ok(
                            (
                                ConnectModel {
                                    clean_start: flag_clean_start(flag),
                                    keep_alive,
                                    properties,
                                    client_id,
                                    will: tail.0,
                                    user_name: tail.1,
                                    password: tail.2,
                                },
                                n0 + n1 + n2 + n3 + n4,
                            ),
                        ),
                    },
                },
            },
        },
    }
}

/// What opens a CONNECT packet is eight bytes long.
pub proof fn lemma_connect_head_len(s: Seq<u8>)
    ensures
        parse_connect_head(s) matches Ok((flag, n)) ==> n == 8 && s.len() >= 8,
{
    reveal(parse_connect_head);
}

/// Skipping some of a sequence and then some more is skipping both at once.
pub proof fn lemma_skip_skip(s: Seq<u8>, a: nat, b: nat)
    requires
        a <= s.len(),
        b <= s.len() - a,
    ensures
        s.skip(a as int).skip(b as int) == s.skip((a + b) as int),
        s.skip(a as int).len() == s.len() - a,
{
    assert(s.skip(a as int).skip(b as int) =~= s.skip((a + b) as int));
}

impl Will {
    /// Reads the will of a CONNECT packet whose connect flags are `flag`.
    pub fn read<R: Reader>(r: &mut R, flag: u8) -> (res: Result<Will, Error>)
        ensures
            final(r).source().input == old(r).source().input,
            match parse_will(old(r).source().remaining, flag) {
                Ok((m, n)) => res matches Ok(w) && w.agrees(m) && advanced(
                    old(r).source(),
                    final(r).source(),
                    n,
                ),
                Err(e) => res matches Err(g) && g@ == e,
            },
    {
        proof {
            reveal(parse_will);
        }
        let ghost start = r.source().remaining;
        let qos = flag / 8 % 4;
        let retain = flag / 32 % 2 != 0;
        let properties = WillProperties::read(r)?;
        let ghost n1 = parse_block(start, WillProperties::slots())->Ok_0.1;
        let topic = lift(r.read_utf8_string())?;
        let ghost n2 = parse_utf8_string(start.skip(n1 as int))->Ok_0.1;
        proof {
            lemma_skip_skip(start, n1, n2);
        }
        let payload = lift(r.read_binary())?;
        proof {
            let n3 = parse_binary(start.skip((n1 + n2) as int))->Ok_0.1;
            lemma_skip_skip(start, n1 + n2, n3);
        }
        Ok(Will { qos, retain, properties, topic, payload })
    }
}

/// Tells whether the six bytes are the protocol name on the wire.
fn is_protocol_name(bytes: &Vec<u8>) -> (yes: bool)
    requires
        bytes@.len() == 6,
    ensures
        yes == (bytes@ == protocol_name_bytes()),
{
    let yes = bytes[0] == 0 && bytes[1] == 4 && bytes[2] == 0x4d && bytes[3] == 0x51 && bytes[4]
        == 0x54 && bytes[5] == 0x54;
    assert(yes ==> bytes@ =~= protocol_name_bytes());
    yes
}

/// Reads what opens a CONNECT packet: the protocol name, the version and the
/// connect flags. Gives the flags.
fn read_connect_head<R: Reader>(r: &mut R) -> (res: Result<u8, Error>)
    ensures
        reads(
            old(r).source(),
            final(r).source(),
            res,
            parse_connect_head(old(r).source().remaining),
        ),
{
    proof {
        reveal(parse_connect_head);
    }
    let ghost start = r.source().remaining;
    let pname = lift(r.read_exact_buf(6))?;
    if !is_protocol_name(&pname) {
        let found = match string_from_utf8(pname) {
            Some(v) => {
                proof {
                    encode_utf8_decode_utf8(v@);
                }
                v
            },
            None => String::from_str(MALFORMED_NAME),
        };
        return Err(Error::InvalidProtocolName(found));
    }
    let protocol_version = lift(r.read_u8())?;
    if protocol_version != PROTOCOL_VERSION {
        return Err(Error::InvalidProtocolVersion);
    }
    proof {
        lemma_skip_skip(start, 6, 1);
    }
    let connect_flag = lift(r.read_u8())?;
    validate_connect_flag(connect_flag)?;
    proof {
        lemma_skip_skip(start, 7, 1);
    }
    Ok(connect_flag)
}

/// Reads what follows the client identifier: the will, the user name and
/// the password, each where its flag is set.
fn read_connect_tail<R: Reader>(r: &mut R, connect_flag: u8) -> (res: Result<
    (Option<Will>, String, Vec<u8>),
    Error,
>)
    ensures
        final(r).source().input == old(r).source().input,
        match parse_connect_tail(old(r).source().remaining, connect_flag) {
            Ok((m, n)) => res matches Ok(t) && (match (t.0, m.0) {
                (None, None) => true,
                (Some(w), Some(wm)) => w.agrees(wm),
                _ => false,
            }) && t.1@ == m.1 && t.2@ == m.2 && advanced(old(r).source(), final(r).source(), n),
            Err(e) => res matches Err(g) && g@ == e,
        },
{
    proof {
        reveal(parse_connect_tail);
    }
    let ghost tail = r.source().remaining;
    let will_flag = connect_flag / 4 % 2 != 0;
    let password_flag = connect_flag / 64 % 2 != 0;
    let username_flag = connect_flag / 128 % 2 != 0;
    assert(tail.skip(0) == tail);

    let mut will: Option<Will> = None;
    let ghost mut t1: nat = 0;
    if will_flag {
        let w = Will::read(r, connect_flag)?;
        proof {
            t1 = parse_will(tail, connect_flag)->Ok_0.1;
        }
        will = Some(w);
    }
    let mut user_name = String::new();
    let ghost mut t2: nat = 0;
    if username_flag {
        user_name = lift(r.read_utf8_string())?;
        proof {
            t2 = parse_utf8_string(tail.skip(t1 as int))->Ok_0.1;
        }
    }
    proof {
        lemma_skip_skip(tail, t1, t2);
    }
    let mut password: Vec<u8> = Vec::new();
    let ghost mut t3: nat = 0;
    if password_flag {
        password = lift(r.read_binary())?;
        proof {
            t3 = parse_binary(tail.skip((t1 + t2) as int))->Ok_0.1;
        }
    }
    proof {
        lemma_skip_skip(tail, t1 + t2, t3);
    }
    Ok((will, user_name, password))
}

impl Connect {
    /// Reads a CONNECT packet behind its fixed header.
    pub fn read<R: Reader>(r: &mut R) -> (res: Result<Connect, Error>)
        ensures
            final(r).source().input == old(r).source().input,
            match parse_connect(old(r).source().remaining) {
                Ok((m, n)) => res matches Ok(c) && c.agrees(m) && advanced(
                    old(r).source(),
                    final(r).source(),
                    n,
                ),
                Err(e) => res matches Err(g) && g@ == e,
            },
    {
        let ghost start = r.source().remaining;
        proof {
            reveal(parse_connect);
            lemma_connect_head_len(start);
        }
        let connect_flag = read_connect_head(r)?;
        let clean_start = connect_flag / 2 % 2 != 0;
        let keep_alive = lift(r.read_u16())?;
        proof {
            lemma_skip_skip(start, 8, 2);
        }
        let properties = ConnectProperties::read(r)?;
        let ghost n2 = parse_block(start.skip(10), ConnectProperties::slots())->Ok_0.1;
        proof {
            lemma_skip_skip(start, 10, n2);
        }
        let client_id = lift(r.read_utf8_string())?;
        let ghost n3 = parse_utf8_string(start.skip((10 + n2) as int))->Ok_0.1;
        proof {
            lemma_skip_skip(start, 10 + n2, n3);
        }
        let ghost head = (10 + n2 + n3) as nat;
        let tail = read_connect_tail(r, connect_flag)?;
        proof {
            let n4 = parse_connect_tail(start.skip(head as int), connect_flag)->Ok_0.1;
            lemma_skip_skip(start, head, n4);
        }
        Ok(
            Connect {
                protocol_name: PROTOCOL_NAME,
                protocol_version: PROTOCOL_VERSION,
                clean_start,
                keep_alive,
                will: tail.0,
                properties,
                client_id,
                user_name: tail.1,
                password: tail.2,
            },
        )
    }
}

/// The entries of a block of properties that may be absent.
pub open spec fn optional_entries<P: PropertyBlock>(p: Option<P>) -> Seq<Entry> {
    match p {
        Some(p) => block_entries(p),
        None => Seq::empty(),
    }
}

/// The size on the wire of a block of properties with its length before it.
pub open spec fn block_size(entries: Seq<Entry>) -> nat {
    varuint_bytes(entries_size(entries)).len() + entries_size(entries)
}

/// The size on the wire of text or binary data of `len` bytes that is written
/// only where it has content.
pub open spec fn optional_data_size(len: nat) -> nat {
    if len == 0 {
        0
    } else {
        2 + len
    }
}

impl Will {
    /// The size of the will on the wire: its properties with their length,
    /// its topic and its payload.
    pub open spec fn size(self) -> nat {
        block_size(optional_entries(self.properties)) + 2 + encode_utf8(self.topic@).len() + 2
            + self.payload@.len()
    }
}

impl Connect {
    /// The connect flags that the packet asks for: a bit each for clean
    /// start, for the will, for the retaining of the will, for the password
    /// and for the user name, and two bits for the quality of service of the will.
    #[verifier::opaque]
    pub open spec fn flags(self) -> u8 {
        ((if self.clean_start {
            2int
        } else {
            0
        }) + (match self.will {
            Some(w) => 4 + 8 * w.qos + (if w.retain {
                32int
            } else {
                0
            }),
            None => 0,
        }) + (if self.password@.len() > 0 {
            64int
        } else {
            0
        }) + (if self.user_name@.len() > 0 {
            128int
        } else {
            0
        })) as u8
    }

    /// The length of the packet behind its fixed header: ten bytes of
    /// protocol name, version, flags and keep-alive time, the properties with
    /// their length, the client identifier, the will where there is one, and
    /// the user name and the password where they have content.
    pub open spec fn remaining_length(self) -> nat {
        10 + block_size(optional_entries(self.properties)) + 2 + encode_utf8(self.client_id@).len()
            + self.will_size() + optional_data_size(encode_utf8(self.user_name@).len())
            + optional_data_size(self.password@.len())
    }

    /// The size of the will on the wire, or 0 where there is none.
    pub open spec fn will_size(self) -> nat {
        match self.will {
            Some(w) => w.size(),
            None => 0,
        }
    }
}

/// Putting a block of properties: its length, then its entries.
pub open spec fn put_block(sink: Sink, entries: Seq<Entry>) -> Result<Sink, CodecError> {
    match put_varuint32(sink, entries_size(entries) as u32) {
        Ok(next) => put_entries(next, entries),
        Err(e) => Err(e),
    }
}

/// Putting a will: its properties, its topic and its payload.
pub open spec fn put_will(sink: Sink, w: Will) -> Result<Sink, CodecError> {
    match put_block(sink, optional_entries(w.properties)) {
        Err(e) => Err(e),
        Ok(s1) => match put_utf8_string(s1, w.topic@) {
            Err(e) => Err(e),
            Ok(s2) => put_binary(s2, w.payload@),
        },
    }
}

/// Putting what opens a CONNECT packet: the fixed header with the packet type
/// and the remaining length, the protocol name, the version 5, the connect
/// flags and the keep-alive time.
pub open spec fn put_connect_head(sink: Sink, c: Connect) -> Result<Sink, CodecError> {
    match put(sink, seq![(PacketType::CONNECT.code() * 16) as u8]) {
        Err(e) => Err(e),
        Ok(s1) => match put_varuint32(s1, c.remaining_length() as u32) {
            Err(e) => Err(e),
            Ok(s2) => match put_utf8_string(s2, PROTOCOL_NAME@) {
                Err(e) => Err(e),
                Ok(s3) => match put(s3, seq![PROTOCOL_VERSION]) {
                    Err(e) => Err(e),
                    Ok(s4) => match put(s4, seq![c.flags()]) {
                        Err(e) => Err(e),
                        Ok(s5) => put(s5, u16_bytes(c.keep_alive)),
                    },
                },
            },
        },
    }
}

/// Putting text that is written only where it has content.
pub open spec fn put_optional_text(sink: Sink, text: Seq<char>) -> Result<Sink, CodecError> {
    if text.len() > 0 {
        put_utf8_string(sink, text)
    } else {
        Ok(sink)
    }
}

/// Putting binary data that is written only where it has content.
pub open spec fn put_optional_binary(sink: Sink, data: Seq<u8>) -> Result<Sink, CodecError> {
    if data.len() > 0 {
        put_binary(sink, data)
    } else {
        Ok(sink)
    }
}

/// Putting the will, where there is one.
pub open spec fn put_optional_will(sink: Sink, will: Option<Will>) -> Result<Sink, CodecError> {
    match will {
        Some(w) => put_will(sink, w),
        None => Ok(sink),
    }
}

/// Putting what follows the client identifier: the will where there is one,
/// and the user name and the password where they have content.
pub open spec fn put_connect_tail(sink: Sink, c: Connect) -> Result<Sink, CodecError> {
    match put_optional_will(sink, c.will) {
        Err(e) => Err(e),
        Ok(s1) => match put_optional_text(s1, c.user_name@) {
            Err(e) => Err(e),
            Ok(s2) => put_optional_binary(s2, c.password@),
        },
    }
}

/// Putting what follows the keep-alive time: the properties, the client
/// identifier, and what follows the client identifier.
pub open spec fn put_connect_payload(sink: Sink, c: Connect) -> Result<Sink, CodecError> {
    match put_block(sink, optional_entries(c.properties)) {
        Err(e) => Err(e),
        Ok(s1) => match put_utf8_string(s1, c.client_id@) {
            Err(e) => Err(e),
            Ok(s2) => put_connect_tail(s2, c),
        },
    }
}

/// The CONNECT packet on the wire, or why it has no wire form: a quality of
/// service of the will above 2; a remaining length above the largest
/// variable-length integer; a value that the codec refuses.
#[verifier::opaque]
pub open spec fn connect_packet(c: Connect) -> Result<Seq<u8>, ErrorView> {
    if c.will matches Some(w) && w.qos > 2 {
        Err(ErrorView::InvalidWillQos)
    } else if c.remaining_length() > MAX_VARUINT32 {
        Err(ErrorView::InvalidRemaningLength)
    } else {
        match put_connect_head(
            Sink { written: Seq::empty(), room: usize::MAX as nat, ahead: Seq::empty() },
            c,
        ) {
            Err(e) => Err(ErrorView::IOError(e)),
            Ok(head) => match put_connect_payload(head, c) {
                Err(e) => Err(ErrorView::IOError(e)),
                Ok(all) => Ok(all.written),
            },
        }
    }
}

/// The sum of two lengths, where it is no more than the largest
/// variable-length integer.
fn plus(a: Option<u32>, b: Option<u32>, Ghost(x): Ghost<nat>, Ghost(y): Ghost<nat>) -> (r: Option<
    u32,
>)
    requires
        a == capped(x),
        b == capped(y),
    ensures
        r == capped(x + y),
{
    match (a, b) {
        (Some(a), Some(b)) => {
            if b > MAX_VARUINT32 - a {
                None
            } else {
                Some(a + b)
            }
        },
        _ => None,
    }
}

/// The size of a block of properties of the given length with the length before it.
fn block_total(len: Option<u32>, Ghost(entries): Ghost<Seq<Entry>>) -> (r: Option<u32>)
    requires
        len == capped(entries_size(entries)),
    ensures
        r == capped(block_size(entries)),
{
    match len {
        Some(len) => {
            proof {
                lemma_varuint_bytes_len(len);
            }
            plus(
                Some(VarUint32Size::size(len)),
                Some(len),
                Ghost(varuint32_size(len)),
                Ghost(len as nat),
            )
        },
        None => None,
    }
}

/// The size of text or binary data of `len` bytes with its two bytes of length.
fn data_total(len: usize) -> (r: Option<u32>)
    ensures
        r == capped((2 + len) as nat),
{
    plus(Some(2), within_limit(len), Ghost(2), Ghost(len as nat))
}

impl Will {
    /// The size of the will on the wire, where it is no more than the
    /// largest variable-length integer.
    pub fn len(&self) -> (n: Option<u32>)
        ensures
            n == capped(self.size()),
    {
        let property_len = match &self.properties {
            Some(p) => p.len(),
            None => Some(0),
        };
        let ghost entries = optional_entries(self.properties);
        let block = block_total(property_len, Ghost(entries));
        let topic = data_total(self.topic.as_str().as_bytes().len());
        let payload = data_total(self.payload.len());
        let first = plus(
            block,
            topic,
            Ghost(block_size(entries)),
            Ghost((2 + encode_utf8(self.topic@).len()) as nat),
        );
        plus(
            first,
            payload,
            Ghost((block_size(entries) + 2 + encode_utf8(self.topic@).len()) as nat),
            Ghost((2 + self.payload@.len()) as nat),
        )
    }

    /// Writes the will: its properties with their length, its topic and its payload.
    fn write<W: Writer>(&self, w: &mut W) -> (r: Result<(), CodecError>)
        requires
            entries_size(optional_entries(self.properties)) <= MAX_VARUINT32,
        ensures
            wrote(final(w).sink(), r, put_will(old(w).sink(), *self)),
    {
        match &self.properties {
            Some(p) => {
                let property_len = p.len();
                w.write_varuint32(property_len.unwrap())?;
                p.write(w)?;
            },
            None => {
                w.write_varuint32(0)?;
            },
        }
        w.write_utf8_string(self.topic.as_str())?;
        w.write_binary(self.payload.as_slice())
    }
}

impl Connect {
    /// The size of the properties of the will, where there is a will with
    /// properties; else 0. Nothing where the size is more than the largest
    /// variable-length integer.
    pub fn will_property_length(&self) -> (n: Option<u32>)
        ensures
            n == capped(
                entries_size(
                    match self.will {
                        Some(w) => optional_entries(w.properties),
                        None => Seq::empty(),
                    },
                ),
            ),
    {
        match &self.will {
            Some(will) => match &will.properties {
                Some(p) => p.len(),
                None => Some(0),
            },
            None => Some(0),
        }
    }

    /// The size of the properties, where there are any; else 0. Nothing where
    /// the size is more than the largest variable-length integer.
    pub fn property_length(&self) -> (n: Option<u32>)
        ensures
            n == capped(entries_size(optional_entries(self.properties))),
    {
        match &self.properties {
            Some(p) => p.len(),
            None => Some(0),
        }
    }

    /// The connect flags that the packet asks for.
    fn connect_flags(&self) -> (flag: u8)
        requires
            self.will matches Some(w) ==> w.qos <= 2,
        ensures
            flag == self.flags(),
    {
        proof {
            reveal(Connect::flags);
        }
        let mut connect_flags: u8 = 0;
        if self.clean_start {
            connect_flags += 0x02;
        }
        if let Some(will) = &self.will {
            connect_flags += 0x04;
            connect_flags += will.qos * 8;
            if will.retain {
                connect_flags += 0x20;
            }
        }
        if self.user_name.as_str().as_bytes().len() > 0 {
            connect_flags += 0x80;
        }
        if self.password.len() > 0 {
            connect_flags += 0x40;
        }
        proof {
            lemma_text_is_empty(self.user_name@);
        }
        connect_flags
    }

    /// The length of the packet behind its fixed header, where it is no
    /// more than the largest variable-length integer.
    fn remaining_len(&self) -> (n: Option<u32>)
        ensures
            n == capped(self.remaining_length()),
    {
        let ghost entries = optional_entries(self.properties);
        let ghost client = (2 + encode_utf8(self.client_id@).len()) as nat;
        let property_len = self.property_length();
        let block = block_total(property_len, Ghost(entries));
        let with_block = plus(Some(10), block, Ghost(10), Ghost(block_size(entries)));
        let client_id = data_total(self.client_id.as_str().as_bytes().len());
        let with_client = plus(
            with_block,
            client_id,
            Ghost(10 + block_size(entries)),
            Ghost(client),
        );
        let ghost will_size: nat = self.will_size();
        let will = match &self.will {
            Some(w) => w.len(),
            None => Some(0),
        };
        let with_will = plus(
            with_client,
            will,
            Ghost(10 + block_size(entries) + client),
            Ghost(will_size),
        );
        let name_len = self.user_name.as_str().as_bytes().len();
        let ghost name_size = optional_data_size(encode_utf8(self.user_name@).len());
        let user_name = if name_len > 0 {
            data_total(name_len)
        } else {
            Some(0)
        };
        let with_name = plus(
            with_will,
            user_name,
            Ghost(10 + block_size(entries) + client + will_size),
            Ghost(name_size),
        );
        let password = if self.password.len() > 0 {
            data_total(self.password.len())
        } else {
            Some(0)
        };
        plus(
            with_name,
            password,
            Ghost(10 + block_size(entries) + client + will_size + name_size),
            Ghost(optional_data_size(self.password@.len())),
        )
    }

    /// Writes the packet with its fixed header: the packet type and the
    /// remaining length, then the protocol name, the version, the connect
    /// flags, the keep-alive time, the properties, the client identifier, the
    /// will where there is one, and the user name and the password where they
    /// have content.
    pub fn write(&self) -> (r: Result<Vec<u8>, Error>)
        ensures
            match connect_packet(*self) {
                Ok(bytes) => r matches Ok(v) && v@ == bytes,
                Err(e) => r matches Err(g) && g@ == e,
            },
    {
        proof {
            reveal(connect_packet);
        }
        if let Some(will) = &self.will {
            if will.qos > 2 {
                return Err(Error::InvalidWillQos);
            }
        }
        let remaining_len = match self.remaining_len() {
            Some(n) => n,
            None => {
                return Err(Error::InvalidRemaningLength);
            },
        };
        let property_len = self.property_length();
        let connect_flags = self.connect_flags();
        proof {
            lemma_text_is_empty(self.user_name@);
        }

        let mut packet = Cursor::new(Vec::<u8>::with_capacity(remaining_len as usize));
        lift(packet.write_u8(PacketType::CONNECT.to_u8() * 16))?;
        lift(packet.write_varuint32(remaining_len))?;

        lift(packet.write_utf8_string(PROTOCOL_NAME))?;
        lift(packet.write_u8(PROTOCOL_VERSION))?;
        lift(packet.write_u8(connect_flags))?;
        lift(packet.write_u16(self.keep_alive))?;
        lift(packet.write_varuint32(property_len.unwrap()))?;
        if let Some(properties) = &self.properties {
            lift(properties.write(&mut packet))?;
        }
        lift(packet.write_utf8_string(self.client_id.as_str()))?;
        if let Some(will) = &self.will {
            lift(will.write(&mut packet))?;
        }
        if self.user_name.as_str().as_bytes().len() > 0 {
            lift(packet.write_utf8_string(self.user_name.as_str()))?;
        }
        if self.password.len() > 0 {
            lift(packet.write_binary(self.password.as_slice()))?;
        }
        Ok(packet.into_written())
    }
}

/// Text has no characters exactly where its UTF-8 form has no bytes.
pub proof fn lemma_text_is_empty(text: Seq<char>)
    ensures
        text.len() == 0 <==> encode_utf8(text).len() == 0,
{
    if text.len() > 0 {
        assert(encode_utf8(text).len() >= encode_scalar(text[0] as u32).len());
        assert(encode_scalar(text[0] as u32).len() >= 1);
    }
}

} // verus!
