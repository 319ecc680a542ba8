//! Property identifiers, and the size, the reading and the writing of one
//! property of each kind of value.

use vstd::prelude::*;
use vstd::utf8::*;
use crate::mqttio::errors::Error;
use crate::mqttio::roundtrip::{
    lemma_binary_roundtrip, lemma_bool_roundtrip, lemma_key_value_pair_roundtrip,
    lemma_u16_roundtrip, lemma_u32_roundtrip, lemma_u8_roundtrip, lemma_utf8_string_roundtrip,
    lemma_varuint32_roundtrip, lemma_varuint_bytes_len,
};
use crate::mqttio::io::{
    allowed_chars, binary_bytes, BinaryData, bool_bytes, key_value_pair_bytes, KeyValuePair,
    lemma_left_ahead, MAX_DATA_LEN, MAX_VARUINT32, parse_binary, parse_bool,
    parse_key_value_pair, parse_u16, parse_u32, parse_u8, parse_utf8_string, parse_varuint32,
    put, put_binary, put_key_value_pair, put_utf8_string, put_varuint32, Reader, reads, Sink,
    u16_bytes, u32_bytes, u8_bytes, utf8_string_bytes, varuint32_size, VarUint32Size,
    varuint_bytes, Writer, wrote,
};

verus! {

/// The kinds of value that a property carries.
#[derive(Debug, Clone, Copy, PartialEq, Eq, Structural)]
pub enum PropertyKind {
    /// One byte, read as true unless it is zero.
    Bool,
    /// One byte.
    Byte,
    /// A 16-bit integer.
    TwoByteInteger,
    /// A 32-bit integer.
    FourByteInteger,
    /// A variable-length integer.
    VariableByteInteger,
    /// Text.
    Utf8String,
    /// Binary data.
    BinaryData,
    /// A name and its value.
    Utf8StringPair,
}

/// The identifiers of the properties, each with its number on the wire.
#[derive(Debug, Clone, Copy, PartialEq, Eq, Structural)]
pub enum PropertyID {
    PayloadFormatIndicator,
    MessageExpiryInterval,
    ContentType,
    ResponseTopic,
    CorrelationData,
    SubscriptionIdentifier,
    SessionExpiryInterval,
    AssignedClientIdentifier,
    ServerKeepAlive,
    AuthenticationMethod,
    AuthenticationData,
    RequestProblemInfo,
    WillDelayInterval,
    RequestResponseInfo,
    ResponseInformation,
    ServerReference,
    ReasonString,
    ReceiveMaximum,
    TopicAliasMaximum,
    TopicAlias,
    MaximumQoS,
    RetainAvailable,
    UserProperty,
    MaximumPacketSize,
    WildcardSubscriptionAvailable,
    SubscriptionIdentifierAvailable,
    SharedSubscriptionAvailable,
}

impl PropertyID {
    /// The number that stands for the identifier on the wire.
    pub open spec fn code(self) -> u32 {
        match self {
            PropertyID::PayloadFormatIndicator => 0x01,
            PropertyID::MessageExpiryInterval => 0x02,
            PropertyID::ContentType => 0x03,
            PropertyID::ResponseTopic => 0x08,
            PropertyID::CorrelationData => 0x09,
            PropertyID::SubscriptionIdentifier => 0x0B,
            PropertyID::SessionExpiryInterval => 0x11,
            PropertyID::AssignedClientIdentifier => 0x12,
            PropertyID::ServerKeepAlive => 0x13,
            PropertyID::AuthenticationMethod => 0x15,
            PropertyID::AuthenticationData => 0x16,
            PropertyID::RequestProblemInfo => 0x17,
            PropertyID::WillDelayInterval => 0x18,
            PropertyID::RequestResponseInfo => 0x19,
            PropertyID::ResponseInformation => 0x1A,
            PropertyID::ServerReference => 0x1C,
            PropertyID::ReasonString => 0x1F,
            PropertyID::ReceiveMaximum => 0x21,
            PropertyID::TopicAliasMaximum => 0x22,
            PropertyID::TopicAlias => 0x23,
            PropertyID::MaximumQoS => 0x24,
            PropertyID::RetainAvailable => 0x25,
            PropertyID::UserProperty => 0x26,
            PropertyID::MaximumPacketSize => 0x27,
            PropertyID::WildcardSubscriptionAvailable => 0x28,
            PropertyID::SubscriptionIdentifierAvailable => 0x29,
            PropertyID::SharedSubscriptionAvailable => 0x2A,
        }
    }

    /// The identifier that a number stands for, if it stands for one.
    pub open spec fn of_code(code: u32) -> Option<PropertyID> {
        if code == 0x01 {
            Some(PropertyID::PayloadFormatIndicator)
        } else if code == 0x02 {
            Some(PropertyID::MessageExpiryInterval)
        } else if code == 0x03 {
            Some(PropertyID::ContentType)
        } else if code == 0x08 {
            Some(PropertyID::ResponseTopic)
        } else if code == 0x09 {
            Some(PropertyID::CorrelationData)
        } else if code == 0x0B {
            Some(PropertyID::SubscriptionIdentifier)
        } else if code == 0x11 {
            Some(PropertyID::SessionExpiryInterval)
        } else if code == 0x12 {
            Some(PropertyID::AssignedClientIdentifier)
        } else if code == 0x13 {
            Some(PropertyID::ServerKeepAlive)
        } else if code == 0x15 {
            Some(PropertyID::AuthenticationMethod)
        } else if code == 0x16 {
            Some(PropertyID::AuthenticationData)
        } else if code == 0x17 {
            Some(PropertyID::RequestProblemInfo)
        } else if code == 0x18 {
            Some(PropertyID::WillDelayInterval)
        } else if code == 0x19 {
            Some(PropertyID::RequestResponseInfo)
        } else if code == 0x1A {
            Some(PropertyID::ResponseInformation)
        } else if code == 0x1C {
            Some(PropertyID::ServerReference)
        } else if code == 0x1F {
            Some(PropertyID::ReasonString)
        } else if code == 0x21 {
            Some(PropertyID::ReceiveMaximum)
        } else if code == 0x22 {
            Some(PropertyID::TopicAliasMaximum)
        } else if code == 0x23 {
            Some(PropertyID::TopicAlias)
        } else if code == 0x24 {
            Some(PropertyID::MaximumQoS)
        } else if code == 0x25 {
            Some(PropertyID::RetainAvailable)
        } else if code == 0x26 {
            Some(PropertyID::UserProperty)
        } else if code == 0x27 {
            Some(PropertyID::MaximumPacketSize)
        } else if code == 0x28 {
            Some(PropertyID::WildcardSubscriptionAvailable)
        } else if code == 0x29 {
            Some(PropertyID::SubscriptionIdentifierAvailable)
        } else if code == 0x2A {
            Some(PropertyID::SharedSubscriptionAvailable)
        } else {
            None
        }
    }

    /// The name of the property in words.
    pub open spec fn name(self) -> &'static str {
        match self {
            PropertyID::PayloadFormatIndicator => "Payload format indicator",
            PropertyID::MessageExpiryInterval => "Message expiry interval",
            PropertyID::ContentType => "Content type",
            PropertyID::ResponseTopic => "response topic",
            PropertyID::CorrelationData => "Correlation data",
            PropertyID::SubscriptionIdentifier => "Subscription Identifier",
            PropertyID::SessionExpiryInterval => "Session Expiry Interval",
            PropertyID::AssignedClientIdentifier => "Assigned Client Identifier",
            PropertyID::ServerKeepAlive => "Server Keep Alive",
            PropertyID::AuthenticationMethod => "Authentication Method",
            PropertyID::AuthenticationData => "Authentication Data",
            PropertyID::RequestProblemInfo => "Request Problem Information",
            PropertyID::WillDelayInterval => "Will Delay Interval",
            PropertyID::RequestResponseInfo => "Request Response Information",
            PropertyID::ResponseInformation => "Response Information",
            PropertyID::ServerReference => "Server Reference",
            PropertyID::ReasonString => "Reason String",
            PropertyID::ReceiveMaximum => "Receive Maximum",
            PropertyID::TopicAliasMaximum => "Topic Alias Maximum",
            PropertyID::TopicAlias => "Topic Alias",
            PropertyID::MaximumQoS => "Maximum QoS",
            PropertyID::RetainAvailable => "Retain Available",
            PropertyID::UserProperty => "User Property",
            PropertyID::MaximumPacketSize => "Maximum Packet Size",
            PropertyID::WildcardSubscriptionAvailable => "Wildcard Subscription Available",
            PropertyID::SubscriptionIdentifierAvailable => "Subscription Identifier Available",
            PropertyID::SharedSubscriptionAvailable => "Shared Subscription Available",
        }
    }

    /// The kind of value that the property carries.
    pub open spec fn kind(self) -> PropertyKind {
        match self {
            PropertyID::PayloadFormatIndicator => PropertyKind::Bool,
            PropertyID::MessageExpiryInterval => PropertyKind::FourByteInteger,
            PropertyID::ContentType => PropertyKind::Utf8String,
            PropertyID::ResponseTopic => PropertyKind::Utf8String,
            PropertyID::CorrelationData => PropertyKind::BinaryData,
            PropertyID::SubscriptionIdentifier => PropertyKind::VariableByteInteger,
            PropertyID::SessionExpiryInterval => PropertyKind::FourByteInteger,
            PropertyID::AssignedClientIdentifier => PropertyKind::Utf8String,
            PropertyID::ServerKeepAlive => PropertyKind::TwoByteInteger,
            PropertyID::AuthenticationMethod => PropertyKind::Utf8String,
            PropertyID::AuthenticationData => PropertyKind::BinaryData,
            PropertyID::RequestProblemInfo => PropertyKind::Bool,
            PropertyID::WillDelayInterval => PropertyKind::FourByteInteger,
            PropertyID::RequestResponseInfo => PropertyKind::Bool,
            PropertyID::ResponseInformation => PropertyKind::Utf8String,
            PropertyID::ServerReference => PropertyKind::Utf8String,
            PropertyID::ReasonString => PropertyKind::Utf8String,
            PropertyID::ReceiveMaximum => PropertyKind::TwoByteInteger,
            PropertyID::TopicAliasMaximum => PropertyKind::TwoByteInteger,
            PropertyID::TopicAlias => PropertyKind::TwoByteInteger,
            PropertyID::MaximumQoS => PropertyKind::Byte,
            PropertyID::RetainAvailable => PropertyKind::Bool,
            PropertyID::UserProperty => PropertyKind::Utf8StringPair,
            PropertyID::MaximumPacketSize => PropertyKind::FourByteInteger,
            PropertyID::WildcardSubscriptionAvailable => PropertyKind::Bool,
            PropertyID::SubscriptionIdentifierAvailable => PropertyKind::Bool,
            PropertyID::SharedSubscriptionAvailable => PropertyKind::Bool,
        }
    }

    /// The name of the property in words.
    pub fn as_str(&self) -> (name: &'static str)
        ensures
            name == self.name(),
    {
        match self {
            PropertyID::PayloadFormatIndicator => "Payload format indicator",
            PropertyID::MessageExpiryInterval => "Message expiry interval",
            PropertyID::ContentType => "Content type",
            PropertyID::ResponseTopic => "response topic",
            PropertyID::CorrelationData => "Correlation data",
            PropertyID::SubscriptionIdentifier => "Subscription Identifier",
            PropertyID::SessionExpiryInterval => "Session Expiry Interval",
            PropertyID::AssignedClientIdentifier => "Assigned Client Identifier",
            PropertyID::ServerKeepAlive => "Server Keep Alive",
            PropertyID::AuthenticationMethod => "Authentication Method",
            PropertyID::AuthenticationData => "Authentication Data",
            PropertyID::RequestProblemInfo => "Request Problem Information",
            PropertyID::WillDelayInterval => "Will Delay Interval",
            PropertyID::RequestResponseInfo => "Request Response Information",
            PropertyID::ResponseInformation => "Response Information",
            PropertyID::ServerReference => "Server Reference",
            PropertyID::ReasonString => "Reason String",
            PropertyID::ReceiveMaximum => "Receive Maximum",
            PropertyID::TopicAliasMaximum => "Topic Alias Maximum",
            PropertyID::TopicAlias => "Topic Alias",
            PropertyID::MaximumQoS => "Maximum QoS",
            PropertyID::RetainAvailable => "Retain Available",
            PropertyID::UserProperty => "User Property",
            PropertyID::MaximumPacketSize => "Maximum Packet Size",
            PropertyID::WildcardSubscriptionAvailable => "Wildcard Subscription Available",
            PropertyID::SubscriptionIdentifierAvailable => "Subscription Identifier Available",
            PropertyID::SharedSubscriptionAvailable => "Shared Subscription Available",
        }
    }

    /// The number that stands for the identifier on the wire.
    pub fn to_u32(&self) -> (code: u32)
        ensures
            code == self.code(),
            0 < code < 0x80,
    {
        match self {
            PropertyID::PayloadFormatIndicator => 0x01,
            PropertyID::MessageExpiryInterval => 0x02,
            PropertyID::ContentType => 0x03,
            PropertyID::ResponseTopic => 0x08,
            PropertyID::CorrelationData => 0x09,
            PropertyID::SubscriptionIdentifier => 0x0B,
            PropertyID::SessionExpiryInterval => 0x11,
            PropertyID::AssignedClientIdentifier => 0x12,
            PropertyID::ServerKeepAlive => 0x13,
            PropertyID::AuthenticationMethod => 0x15,
            PropertyID::AuthenticationData => 0x16,
            PropertyID::RequestProblemInfo => 0x17,
            PropertyID::WillDelayInterval => 0x18,
            PropertyID::RequestResponseInfo => 0x19,
            PropertyID::ResponseInformation => 0x1A,
            PropertyID::ServerReference => 0x1C,
            PropertyID::ReasonString => 0x1F,
            PropertyID::ReceiveMaximum => 0x21,
            PropertyID::TopicAliasMaximum => 0x22,
            PropertyID::TopicAlias => 0x23,
            PropertyID::MaximumQoS => 0x24,
            PropertyID::RetainAvailable => 0x25,
            PropertyID::UserProperty => 0x26,
            PropertyID::MaximumPacketSize => 0x27,
            PropertyID::WildcardSubscriptionAvailable => 0x28,
            PropertyID::SubscriptionIdentifierAvailable => 0x29,
            PropertyID::SharedSubscriptionAvailable => 0x2A,
        }
    }

    /// The identifier that `code` stands for, or nothing where it stands for none.
    pub fn from_u32(code: u32) -> (id: Option<PropertyID>)
        ensures
            id == PropertyID::of_code(code),
    {
        match code {
            0x01 => Some(PropertyID::PayloadFormatIndicator),
            0x02 => Some(PropertyID::MessageExpiryInterval),
            0x03 => Some(PropertyID::ContentType),
            0x08 => Some(PropertyID::ResponseTopic),
            0x09 => Some(PropertyID::CorrelationData),
            0x0B => Some(PropertyID::SubscriptionIdentifier),
            0x11 => Some(PropertyID::SessionExpiryInterval),
            0x12 => Some(PropertyID::AssignedClientIdentifier),
            0x13 => Some(PropertyID::ServerKeepAlive),
            0x15 => Some(PropertyID::AuthenticationMethod),
            0x16 => Some(PropertyID::AuthenticationData),
            0x17 => Some(PropertyID::RequestProblemInfo),
            0x18 => Some(PropertyID::WillDelayInterval),
            0x19 => Some(PropertyID::RequestResponseInfo),
            0x1A => Some(PropertyID::ResponseInformation),
            0x1C => Some(PropertyID::ServerReference),
            0x1F => Some(PropertyID::ReasonString),
            0x21 => Some(PropertyID::ReceiveMaximum),
            0x22 => Some(PropertyID::TopicAliasMaximum),
            0x23 => Some(PropertyID::TopicAlias),
            0x24 => Some(PropertyID::MaximumQoS),
            0x25 => Some(PropertyID::RetainAvailable),
            0x26 => Some(PropertyID::UserProperty),
            0x27 => Some(PropertyID::MaximumPacketSize),
            0x28 => Some(PropertyID::WildcardSubscriptionAvailable),
            0x29 => Some(PropertyID::SubscriptionIdentifierAvailable),
            0x2A => Some(PropertyID::SharedSubscriptionAvailable),
            _ => None,
        }
    }

    /// The kind of value that the property carries.
    pub fn value_kind(&self) -> (kind: PropertyKind)
        ensures
            kind == self.kind(),
    {
        match self {
            PropertyID::PayloadFormatIndicator => PropertyKind::Bool,
            PropertyID::MessageExpiryInterval => PropertyKind::FourByteInteger,
            PropertyID::ContentType => PropertyKind::Utf8String,
            PropertyID::ResponseTopic => PropertyKind::Utf8String,
            PropertyID::CorrelationData => PropertyKind::BinaryData,
            PropertyID::SubscriptionIdentifier => PropertyKind::VariableByteInteger,
            PropertyID::SessionExpiryInterval => PropertyKind::FourByteInteger,
            PropertyID::AssignedClientIdentifier => PropertyKind::Utf8String,
            PropertyID::ServerKeepAlive => PropertyKind::TwoByteInteger,
            PropertyID::AuthenticationMethod => PropertyKind::Utf8String,
            PropertyID::AuthenticationData => PropertyKind::BinaryData,
            PropertyID::RequestProblemInfo => PropertyKind::Bool,
            PropertyID::WillDelayInterval => PropertyKind::FourByteInteger,
            PropertyID::RequestResponseInfo => PropertyKind::Bool,
            PropertyID::ResponseInformation => PropertyKind::Utf8String,
            PropertyID::ServerReference => PropertyKind::Utf8String,
            PropertyID::ReasonString => PropertyKind::Utf8String,
            PropertyID::ReceiveMaximum => PropertyKind::TwoByteInteger,
            PropertyID::TopicAliasMaximum => PropertyKind::TwoByteInteger,
            PropertyID::TopicAlias => PropertyKind::TwoByteInteger,
            PropertyID::MaximumQoS => PropertyKind::Byte,
            PropertyID::RetainAvailable => PropertyKind::Bool,
            PropertyID::UserProperty => PropertyKind::Utf8StringPair,
            PropertyID::MaximumPacketSize => PropertyKind::FourByteInteger,
            PropertyID::WildcardSubscriptionAvailable => PropertyKind::Bool,
            PropertyID::SubscriptionIdentifierAvailable => PropertyKind::Bool,
            PropertyID::SharedSubscriptionAvailable => PropertyKind::Bool,
        }
    }

    /// A number stands for an identifier exactly where it is the number of
    /// that identifier.
    pub proof fn lemma_code(self)
        ensures
            PropertyID::of_code(self.code()) == Some(self),
            0 < self.code() < 0x80,
    {
    }
}

/// The value of one property, as a model of what is held and of what is on the wire.
pub enum Value {
    Bool(bool),
    Byte(u8),
    TwoByteInteger(u16),
    FourByteInteger(u32),
    VariableByteInteger(u32),
    Utf8String(Seq<char>),
    BinaryData(Seq<u8>),
    Utf8StringPair(Seq<char>, Seq<char>),
}

impl Value {
    /// The kind of the value.
    pub open spec fn kind(self) -> PropertyKind {
        match self {
            Value::Bool(_) => PropertyKind::Bool,
            Value::Byte(_) => PropertyKind::Byte,
            Value::TwoByteInteger(_) => PropertyKind::TwoByteInteger,
            Value::FourByteInteger(_) => PropertyKind::FourByteInteger,
            Value::VariableByteInteger(_) => PropertyKind::VariableByteInteger,
            Value::Utf8String(_) => PropertyKind::Utf8String,
            Value::BinaryData(_) => PropertyKind::BinaryData,
            Value::Utf8StringPair(_, _) => PropertyKind::Utf8StringPair,
        }
    }

    /// The wire form of the value, without the identifier before it.
    pub open spec fn bytes(self) -> Seq<u8> {
        match self {
            Value::Bool(v) => bool_bytes(v),
            Value::Byte(v) => u8_bytes(v),
            Value::TwoByteInteger(v) => u16_bytes(v),
            Value::FourByteInteger(v) => u32_bytes(v),
            Value::VariableByteInteger(v) => varuint_bytes(v as nat),
            Value::Utf8String(v) => utf8_string_bytes(v),
            Value::BinaryData(v) => binary_bytes(v),
            Value::Utf8StringPair(k, v) => key_value_pair_bytes(k, v),
        }
    }

    /// The number of bytes that the value takes on the wire: 1 for a boolean
    /// or a byte, 2 and 4 for the integers, its own size for a variable-length
    /// integer, 2 and the content for text and binary data, and for a pair
    /// that of its two texts.
    pub open spec fn size(self) -> nat {
        match self {
            Value::Bool(_) => 1,
            Value::Byte(_) => 1,
            Value::TwoByteInteger(_) => 2,
            Value::FourByteInteger(_) => 4,
            Value::VariableByteInteger(v) => varuint32_size(v),
            Value::Utf8String(v) => 2 + encode_utf8(v).len(),
            Value::BinaryData(v) => 2 + v.len(),
            Value::Utf8StringPair(k, v) => 2 + encode_utf8(k).len() + 2 + encode_utf8(v).len(),
        }
    }

    /// The value has a wire form: a variable-length integer is in range, and
    /// text and binary data are short enough for their length prefix.
    pub open spec fn fits(self) -> bool {
        match self {
            Value::VariableByteInteger(v) => v <= MAX_VARUINT32,
            Value::Utf8String(v) => encode_utf8(v).len() <= MAX_DATA_LEN,
            Value::BinaryData(v) => v.len() <= MAX_DATA_LEN,
            Value::Utf8StringPair(k, v) => encode_utf8(k).len() <= MAX_DATA_LEN && encode_utf8(
                v,
            ).len() <= MAX_DATA_LEN,
            _ => true,
        }
    }

    /// The value has a wire form that reads back as the value: it fits, and
    /// its text holds no forbidden code point.
    pub open spec fn well_formed(self) -> bool {
        self.fits() && match self {
            Value::Utf8String(v) => allowed_chars(v),
            Value::Utf8StringPair(k, v) => allowed_chars(k) && allowed_chars(v),
            _ => true,
        }
    }

    /// Text or binary data without content. A slot that holds one such value
    /// counts as absent.
    pub open spec fn is_blank(self) -> bool {
        match self {
            Value::Utf8String(v) => v.len() == 0,
            Value::BinaryData(v) => v.len() == 0,
            _ => false,
        }
    }
}

/// Putting the identifier of a property.
pub open spec fn put_id(sink: Sink, id: PropertyID) -> Result<Sink, Error> {
    put_varuint32(sink, id.code())
}

/// Putting the value of a property.
pub open spec fn put_value(sink: Sink, value: Value) -> Result<Sink, Error> {
    match value {
        Value::VariableByteInteger(v) => put_varuint32(sink, v),
        Value::Utf8String(v) => put_utf8_string(sink, v),
        Value::BinaryData(v) => put_binary(sink, v),
        Value::Utf8StringPair(k, v) => put_key_value_pair(sink, k, v),
        _ => put(sink, value.bytes()),
    }
}

/// Putting one property: its identifier, then its value.
pub open spec fn put_property(sink: Sink, id: PropertyID, value: Value) -> Result<Sink, Error> {
    match put_id(sink, id) {
        Ok(next) => put_value(next, value),
        Err(e) => Err(e),
    }
}

/// Putting a property that may be absent: nothing is put for an absent one.
pub open spec fn put_optional(sink: Sink, id: PropertyID, value: Option<Value>) -> Result<
    Sink,
    Error,
> {
    match value {
        Some(v) => put_property(sink, id, v),
        None => Ok(sink),
    }
}

/// Putting a property once for each of `values`, in their order.
pub open spec fn put_repeated(sink: Sink, id: PropertyID, values: Seq<Value>) -> Result<
    Sink,
    Error,
>
    decreases values.len(),
{
    if values.len() == 0 {
        Ok(sink)
    } else {
        match put_repeated(sink, id, values.drop_last()) {
            Ok(next) => put_property(next, id, values.last()),
            Err(e) => Err(e),
        }
    }
}

/// Reading the value of a property of the given kind.
pub open spec fn parse_value(s: Seq<u8>, kind: PropertyKind) -> Result<(Value, nat), Error> {
    match kind {
        PropertyKind::Bool => match parse_bool(s) {
            Ok((v, n)) => Ok((Value::Bool(v), n)),
            Err(e) => Err(e),
        },
        PropertyKind::Byte => match parse_u8(s) {
            Ok((v, n)) => Ok((Value::Byte(v), n)),
            Err(e) => Err(e),
        },
        PropertyKind::TwoByteInteger => match parse_u16(s) {
            Ok((v, n)) => Ok((Value::TwoByteInteger(v), n)),
            Err(e) => Err(e),
        },
        PropertyKind::FourByteInteger => match parse_u32(s) {
            Ok((v, n)) => Ok((Value::FourByteInteger(v), n)),
            Err(e) => Err(e),
        },
        PropertyKind::VariableByteInteger => match parse_varuint32(s) {
            Ok((v, n)) => Ok((Value::VariableByteInteger(v), n)),
            Err(e) => Err(e),
        },
        PropertyKind::Utf8String => match parse_utf8_string(s) {
            Ok((v, n)) => Ok((Value::Utf8String(v), n)),
            Err(e) => Err(e),
        },
        PropertyKind::BinaryData => match parse_binary(s) {
            Ok((v, n)) => Ok((Value::BinaryData(v), n)),
            Err(e) => Err(e),
        },
        PropertyKind::Utf8StringPair => match parse_key_value_pair(s) {
            Ok((v, n)) => Ok((Value::Utf8StringPair(v.0, v.1), n)),
            Err(e) => Err(e),
        },
    }
}

/// A value that was read, offered as a value that may be absent.
pub open spec fn present<T>(model: Result<(T, nat), Error>) -> Result<(Option<T>, nat), Error> {
    match model {
        Ok((v, n)) => Ok((Some(v), n)),
        Err(e) => Err(e),
    }
}

/// The size of a variable-length integer with one byte for an identifier
/// before it, summed over `values`.
pub open spec fn varuint32_array_size(values: Seq<u32>) -> nat
    decreases values.len(),
{
    if values.len() == 0 {
        0
    } else {
        varuint32_array_size(values.drop_last()) + varuint32_size(values.last()) + 1
    }
}

/// The size of a name and its value, each with its two bytes of length,
/// summed over `pairs`. The byte of the identifier that stands before each
/// pair on the wire is not counted.
pub open spec fn utf8_string_pair_size(pairs: Seq<KeyValuePair>) -> nat
    decreases pairs.len(),
{
    if pairs.len() == 0 {
        0
    } else {
        utf8_string_pair_size(pairs.drop_last()) + 4 + encode_utf8(pairs.last().0@).len()
            + encode_utf8(pairs.last().1@).len()
    }
}

/// The pairs as values of a property.
pub open spec fn pair_values(pairs: Seq<KeyValuePair>) -> Seq<Value> {
    pairs.map_values(|p: KeyValuePair| Value::Utf8StringPair(p.0@, p.1@))
}

/// The sizes of single properties, each with the byte of its identifier. An
/// absent value, and text or binary data without content, has size 0.
pub struct PropertySize {}

impl PropertySize {
    /// The size of a boolean property: 2 where the value is present.
    pub fn from_bool(value: &Option<bool>) -> (n: u32)
        ensures
            n == if value is Some { 2nat } else { 0 },
    {
        if value.is_some() {
            return 1 + 1;
        }
        0
    }

    /// The size of a byte property: 2 where the value is present.
    pub fn from_u8(value: &Option<u8>) -> (n: u32)
        ensures
            n == if value is Some { 2nat } else { 0 },
    {
        if value.is_some() {
            return 1 + 1;
        }
        0
    }

    /// The size of a 16-bit property: 3 where the value is present.
    pub fn from_u16(value: &Option<u16>) -> (n: u32)
        ensures
            n == if value is Some { 3nat } else { 0 },
    {
        if value.is_some() {
            return 2 + 1;
        }
        0
    }

    /// The size of a 32-bit property: 5 where the value is present.
    pub fn from_u32(value: &Option<u32>) -> (n: u32)
        ensures
            n == if value is Some { 5nat } else { 0 },
    {
        if value.is_some() {
            return 4 + 1;
        }
        0
    }

    /// The size of a text property: 3 and the bytes of the text, where it has content.
    pub fn from_utf8_string(value: &str) -> (n: u32)
        requires
            encode_utf8(value@).len() + 3 <= u32::MAX,
        ensures
            n == if value@.len() == 0 { 0 } else { encode_utf8(value@).len() + 3 },
    {
        if !value.is_empty() {
            return value.len() as u32 + 3;
        }
        0
    }

    /// The size of a binary property: 3 and the bytes of the data, where it has content.
    pub fn from_binary_data(value: &Vec<u8>) -> (n: u32)
        requires
            value@.len() + 3 <= u32::MAX,
        ensures
            n == if value@.len() == 0 { 0 } else { value@.len() + 3 },
    {
        if !value.is_empty() {
            return value.len() as u32 + 3;
        }
        0
    }

    /// The size of a variable-length integer property: 1 and the size of the
    /// number, where the value is present.
    pub fn from_varuint32(value: &Option<u32>) -> (n: u32)
        ensures
            n == match value {
                Some(v) => varuint32_size(*v) + 1,
                None => 0,
            },
    {
        match value {
            Some(v) => VarUint32Size::size(*v) + 1,
            None => 0,
        }
    }

    /// The size of a variable-length integer property that repeats: for each
    /// number 1 and its size.
    pub fn from_varuint32_array(arr: &[u32]) -> (n: usize)
        requires
            arr@.len() * 6 <= usize::MAX,
        ensures
            n == varuint32_array_size(arr@),
    {
        if arr.len() == 0 {
            return 0;
        }
        let mut property_len: usize = 0;
        let mut i: usize = 0;
        while i < arr.len()
            invariant
                i <= arr@.len(),
                arr@.len() * 6 <= usize::MAX,
                property_len == varuint32_array_size(arr@.take(i as int)),
                property_len <= i * 6,
            decreases arr@.len() - i,
        {
            assert(arr@.take(i + 1).drop_last() == arr@.take(i as int));
            let n = VarUint32Size::size(arr[i]);
            property_len += n as usize + 1;
            i += 1;
        }
        assert(arr@.take(arr@.len() as int) == arr@);
        property_len
    }

    /// The size of the names and values of a property that repeats: for each
    /// pair 2 and the bytes of the name, and 2 and the bytes of the value. The byte
    /// of the identifier before each pair is not counted.
    pub fn from_utf8_string_pair(arr: &[KeyValuePair]) -> (n: u32)
        requires
            utf8_string_pair_size(arr@) <= u32::MAX,
        ensures
            n == utf8_string_pair_size(arr@),
    {
        if arr.len() == 0 {
            return 0;
        }
        let mut property_len: u32 = 0;
        let mut i: usize = 0;
        while i < arr.len()
            invariant
                i <= arr@.len(),
                utf8_string_pair_size(arr@) <= u32::MAX,
                property_len == utf8_string_pair_size(arr@.take(i as int)),
            decreases arr@.len() - i,
        {
            proof {
                assert(arr@.take(i + 1).drop_last() == arr@.take(i as int));
                lemma_utf8_string_pair_size_grows(arr@, i + 1);
            }
            let key = arr[i].0.as_str().as_bytes().len();
            let value = arr[i].1.as_str().as_bytes().len();
            property_len += 4 + key as u32 + value as u32;
            i += 1;
        }
        assert(arr@.take(arr@.len() as int) == arr@);
        property_len
    }
}

/// The size of the first pairs is no more than the size of all of them.
pub proof fn lemma_utf8_string_pair_size_grows(pairs: Seq<KeyValuePair>, n: int)
    requires
        0 <= n <= pairs.len(),
    ensures
        utf8_string_pair_size(pairs.take(n)) <= utf8_string_pair_size(pairs),
    decreases pairs.len() - n,
{
    if n < pairs.len() {
        lemma_utf8_string_pair_size_grows(pairs, n + 1);
        assert(pairs.take(n + 1).drop_last() == pairs.take(n));
    } else {
        assert(pairs.take(n) == pairs);
    }
}

/// Reads of the value of one property, for each kind of value.
pub struct PropertyReader {}

impl PropertyReader {
    /// Reads the value of a boolean property.
    pub fn to_bool<R: Reader>(r: &mut R) -> (res: Result<Option<bool>, Error>)
        ensures
            reads(
                old(r).source(),
                final(r).source(),
                res,
                present(parse_bool(old(r).source().remaining)),
            ),
    {
        let data = r.read_bool()?;
        Ok(Some(data))
    }

    /// Reads the value of a byte property.
    pub fn to_u8<R: Reader>(r: &mut R) -> (res: Result<Option<u8>, Error>)
        ensures
            reads(
                old(r).source(),
                final(r).source(),
                res,
                present(parse_u8(old(r).source().remaining)),
            ),
    {
        let data = r.read_u8()?;
        Ok(Some(data))
    }

    /// Reads the value of a 16-bit property.
    pub fn to_u16<R: Reader>(r: &mut R) -> (res: Result<Option<u16>, Error>)
        ensures
            reads(
                old(r).source(),
                final(r).source(),
                res,
                present(parse_u16(old(r).source().remaining)),
            ),
    {
        let data = r.read_u16()?;
        Ok(Some(data))
    }

    /// Reads the value of a 32-bit property.
    pub fn to_u32<R: Reader>(r: &mut R) -> (res: Result<Option<u32>, Error>)
        ensures
            reads(
                old(r).source(),
                final(r).source(),
                res,
                present(parse_u32(old(r).source().remaining)),
            ),
    {
        let data = r.read_u32()?;
        Ok(Some(data))
    }

    /// Reads the value of a variable-length integer property.
    pub fn to_varuint32<R: Reader>(r: &mut R) -> (res: Result<Option<u32>, Error>)
        ensures
            reads(
                old(r).source(),
                final(r).source(),
                res,
                present(parse_varuint32(old(r).source().remaining)),
            ),
    {
        let data = r.read_varuint32()?;
        Ok(Some(data))
    }

    /// Reads the value of a text property.
    pub fn to_utf8_string<R: Reader>(r: &mut R) -> (res: Result<String, Error>)
        ensures
            reads(
                old(r).source(),
                final(r).source(),
                res,
                parse_utf8_string(old(r).source().remaining),
            ),
    {
        let data = r.read_utf8_string()?;
        Ok(data)
    }

    /// Reads the value of a binary property.
    pub fn to_binary_data<R: Reader>(r: &mut R) -> (res: Result<Vec<u8>, Error>)
        ensures
            reads(
                old(r).source(),
                final(r).source(),
                res,
                parse_binary(old(r).source().remaining),
            ),
    {
        let data = r.read_binary()?;
        Ok(data)
    }

    /// Reads a name and its value.
    pub fn read_utf8_pair<R: Reader>(r: &mut R) -> (res: Result<(String, String), Error>)
        ensures
            reads(
                old(r).source(),
                final(r).source(),
                res,
                parse_key_value_pair(old(r).source().remaining),
            ),
    {
        let ghost start = r.source().remaining;
        let key = r.read_utf8_string()?;
        let ghost middle = r.source().remaining;
        let value = r.read_utf8_string()?;
        proof {
            let n = parse_utf8_string(start)->Ok_0.1;
            let m = parse_utf8_string(middle)->Ok_0.1;
            assert(start.skip(n as int).skip(m as int) =~= start.skip((n + m) as int));
        }
        Ok((key, value))
    }
}

/// Writes of one property, for each kind of value: the identifier, then the
/// value. Nothing is written for an absent value, nor for text or binary data
/// without content.
pub struct PropertyWriter {}

impl PropertyWriter {
    /// Writes a boolean property, where the value is present.
    pub fn from_bool<W: Writer>(w: &mut W, id: PropertyID, v: &Option<bool>) -> (r: Result<
        (),
        Error,
    >)
        ensures
            wrote(
                final(w).sink(),
                r,
                put_optional(
                    old(w).sink(),
                    id,
                    match v {
                        Some(b) => Some(Value::Bool(*b)),
                        None => None,
                    },
                ),
            ),
    {
        match v {
            None => Ok(()),
            Some(b) => {
                w.write_varuint32(id.to_u32())?;
                w.write_bool(*b)
            },
        }
    }

    /// Writes a byte property, where the value is present.
    pub fn from_u8<W: Writer>(w: &mut W, id: PropertyID, v: &Option<u8>) -> (r: Result<(), Error>)
        ensures
            wrote(
                final(w).sink(),
                r,
                put_optional(
                    old(w).sink(),
                    id,
                    match v {
                        Some(b) => Some(Value::Byte(*b)),
                        None => None,
                    },
                ),
            ),
    {
        match v {
            None => Ok(()),
            Some(b) => {
                w.write_varuint32(id.to_u32())?;
                w.write_u8(*b)
            },
        }
    }

    /// Writes a 16-bit property, where the value is present.
    pub fn from_u16<W: Writer>(w: &mut W, id: PropertyID, v: &Option<u16>) -> (r: Result<
        (),
        Error,
    >)
        ensures
            wrote(
                final(w).sink(),
                r,
                put_optional(
                    old(w).sink(),
                    id,
                    match v {
                        Some(b) => Some(Value::TwoByteInteger(*b)),
                        None => None,
                    },
                ),
            ),
    {
        match v {
            None => Ok(()),
            Some(b) => {
                w.write_varuint32(id.to_u32())?;
                w.write_u16(*b)
            },
        }
    }

    /// Writes a 32-bit property, where the value is present.
    pub fn from_u32<W: Writer>(w: &mut W, id: PropertyID, v: &Option<u32>) -> (r: Result<
        (),
        Error,
    >)
        ensures
            wrote(
                final(w).sink(),
                r,
                put_optional(
                    old(w).sink(),
                    id,
                    match v {
                        Some(b) => Some(Value::FourByteInteger(*b)),
                        None => None,
                    },
                ),
            ),
    {
        match v {
            None => Ok(()),
            Some(b) => {
                w.write_varuint32(id.to_u32())?;
                w.write_u32(*b)
            },
        }
    }

    /// Writes a variable-length integer property, where the value is present.
    pub fn from_varuint32<W: Writer>(w: &mut W, id: PropertyID, v: &Option<u32>) -> (r: Result<
        (),
        Error,
    >)
        ensures
            wrote(
                final(w).sink(),
                r,
                put_optional(
                    old(w).sink(),
                    id,
                    match v {
                        Some(b) => Some(Value::VariableByteInteger(*b)),
                        None => None,
                    },
                ),
            ),
    {
        match v {
            None => Ok(()),
            Some(b) => {
                w.write_varuint32(id.to_u32())?;
                w.write_varuint32(*b)
            },
        }
    }

    /// Writes a text property, where the text has content.
    pub fn from_utf8_string<W: Writer>(w: &mut W, id: PropertyID, v: &String) -> (r: Result<
        (),
        Error,
    >)
        ensures
            wrote(
                final(w).sink(),
                r,
                put_optional(
                    old(w).sink(),
                    id,
                    if v@.len() == 0 {
                        None
                    } else {
                        Some(Value::Utf8String(v@))
                    },
                ),
            ),
    {
        if v.as_str().is_empty() {
            return Ok(());
        }
        w.write_varuint32(id.to_u32())?;
        w.write_utf8_string(v.as_str())
    }

    /// Writes a binary property, where the data has content.
    pub fn from_binary_data<W: Writer>(w: &mut W, id: PropertyID, v: &Vec<u8>) -> (r: Result<
        (),
        Error,
    >)
        ensures
            wrote(
                final(w).sink(),
                r,
                put_optional(
                    old(w).sink(),
                    id,
                    if v@.len() == 0 {
                        None
                    } else {
                        Some(Value::BinaryData(v@))
                    },
                ),
            ),
    {
        if v.is_empty() {
            return Ok(());
        }
        w.write_varuint32(id.to_u32())?;
        w.write_binary(v.as_slice())
    }

    /// Writes the property once for each pair: the identifier, the name and the value.
    pub fn from_utf8_pair<W: Writer>(w: &mut W, id: PropertyID, values: &[KeyValuePair]) -> (r:
        Result<(), Error>)
        ensures
            wrote(final(w).sink(), r, put_repeated(old(w).sink(), id, pair_values(values@))),
    {
        if values.is_empty() {
            return Ok(());
        }
        let ghost all = pair_values(values@);
        let mut i: usize = 0;
        while i < values.len()
            invariant
                i <= values@.len(),
                all == pair_values(values@),
                put_repeated(old(w).sink(), id, all.take(i as int)) == Ok::<Sink, Error>(w.sink()),
            decreases values@.len() - i,
        {
            proof {
                assert(all.take(i + 1).drop_last() == all.take(i as int));
                assert(all.take(i + 1).last() == Value::Utf8StringPair(
                    values@[i as int].0@,
                    values@[i as int].1@,
                ));
                lemma_put_repeated_fails_on(old(w).sink(), id, all, i + 1);
            }
            w.write_varuint32(id.to_u32())?;
            w.write_utf8_string(values[i].0.as_str())?;
            w.write_utf8_string(values[i].1.as_str())?;
            i += 1;
        }
        assert(all.take(values@.len() as int) == all);
        Ok(())
    }
}

/// Where putting the first `n` of the values fails, putting all of them fails
/// in the same way.
pub proof fn lemma_put_repeated_fails_on(sink: Sink, id: PropertyID, values: Seq<Value>, n: int)
    requires
        0 <= n <= values.len(),
    ensures
        put_repeated(sink, id, values.take(n)) matches Err(e) ==> put_repeated(sink, id, values)
            == Err::<Sink, Error>(e),
    decreases values.len() - n,
{
    if n < values.len() {
        lemma_put_repeated_fails_on(sink, id, values, n + 1);
        assert(values.take(n + 1).drop_last() == values.take(n));
    } else {
        assert(values.take(n) == values);
    }
}

/// Putting bytes and then more bytes is putting them all at once.
pub proof fn lemma_put_twice(sink: Sink, first: Seq<u8>, second: Seq<u8>)
    ensures
        put(sink, first + second) == match put(sink, first) {
            Ok(next) => put(next, second),
            Err(e) => Err(e),
        },
{
    lemma_left_ahead(sink.ahead, first.len(), second.len());
    if let Ok(next) = put(sink, first) {
        if let Ok(last) = put(next, second) {
            assert(sink.written + first + second =~= sink.written + (first + second));
        }
    }
}

/// The wire form of a value that fits has the size of the value.
pub proof fn lemma_value_bytes_len(value: Value)
    requires
        value.fits(),
    ensures
        value.bytes().len() == value.size(),
{
    if let Value::VariableByteInteger(v) = value {
        lemma_varuint_bytes_len(v);
    }
}

/// Putting a value that fits puts its wire form; a value that does not fit is refused.
pub proof fn lemma_put_value(sink: Sink, value: Value)
    ensures
        value.fits() ==> put_value(sink, value) == put(sink, value.bytes()),
        !value.fits() ==> put_value(sink, value) is Err,
{
    if let Value::Utf8StringPair(k, v) = value {
        lemma_put_twice(sink, utf8_string_bytes(k), utf8_string_bytes(v));
    }
}

/// Putting a property whose value fits puts the byte of its identifier and the
/// wire form of the value; a value that does not fit is refused.
pub proof fn lemma_put_property(sink: Sink, id: PropertyID, value: Value)
    ensures
        value.fits() ==> put_property(sink, id, value) == put(
            sink,
            varuint_bytes(id.code() as nat) + value.bytes(),
        ),
        !value.fits() ==> put_property(sink, id, value) is Err,
{
    id.lemma_code();
    lemma_put_twice(sink, varuint_bytes(id.code() as nat), value.bytes());
    if let Ok(next) = put_id(sink, id) {
        lemma_put_value(next, value);
    }
}

/// A value that is well formed reads back as itself after it was written,
/// from as many bytes as its size says.
pub proof fn lemma_value_roundtrip(value: Value, rest: Seq<u8>)
    requires
        value.well_formed(),
    ensures
        parse_value(value.bytes() + rest, value.kind()) == Ok::<(Value, nat), Error>(
            (value, value.size()),
        ),
{
    match value {
        Value::Bool(v) => lemma_bool_roundtrip(v, rest),
        Value::Byte(v) => lemma_u8_roundtrip(v, rest),
        Value::TwoByteInteger(v) => lemma_u16_roundtrip(v, rest),
        Value::FourByteInteger(v) => lemma_u32_roundtrip(v, rest),
        Value::VariableByteInteger(v) => lemma_varuint32_roundtrip(v, rest),
        Value::Utf8String(v) => lemma_utf8_string_roundtrip(v, rest),
        Value::BinaryData(v) => lemma_binary_roundtrip(v, rest),
        Value::Utf8StringPair(k, v) => lemma_key_value_pair_roundtrip(k, v, rest),
    }
}

} // verus!
