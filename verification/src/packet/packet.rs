//! What all packets share: the packet types, the reason codes, and the fixed
//! header that stands before every packet.

use vstd::prelude::*;
use crate::errors::{lift, Error, ErrorView};
use crate::mqttio::io::{
    lemma_varuint_taken, parse_u8, parse_varuint32, reads, varuint_taken, Reader, MAX_VARUINT32,
};
use crate::mqttio::roundtrip::lemma_parse_varuint32_bounds;

verus! {

/// The types of control packet, each with its number in the high four bits of
/// the first byte of a packet.
#[allow(non_camel_case_types)]
#[derive(Debug, Clone, Copy, PartialEq, Eq, Structural)]
pub enum PacketType {
    RESERVED,
    CONNECT,
    CONNACK,
    PUBLISH,
    PUBACK,
    PUBREC,
    PUBREL,
    PUBCOMP,
    SUBSCRIBE,
    SUBACK,
    UNSUBSCRIBE,
    UNSUBACK,
    PINGREQ,
    PINGRESP,
    DISCONNECT,
    AUTH,
}

impl PacketType {
    /// The number of the packet type.
    pub open spec fn code(self) -> u8 {
        match self {
            PacketType::RESERVED => 0,
            PacketType::CONNECT => 1,
            PacketType::CONNACK => 2,
            PacketType::PUBLISH => 3,
            PacketType::PUBACK => 4,
            PacketType::PUBREC => 5,
            PacketType::PUBREL => 6,
            PacketType::PUBCOMP => 7,
            PacketType::SUBSCRIBE => 8,
            PacketType::SUBACK => 9,
            PacketType::UNSUBSCRIBE => 10,
            PacketType::UNSUBACK => 11,
            PacketType::PINGREQ => 12,
            PacketType::PINGRESP => 13,
            PacketType::DISCONNECT => 14,
            PacketType::AUTH => 15,
        }
    }

    /// The packet type of a number, if there is one.
    pub open spec fn of_code(code: u8) -> Option<PacketType> {
        if code == 0 {
            Some(PacketType::RESERVED)
        } else if code == 1 {
            Some(PacketType::CONNECT)
        } else if code == 2 {
            Some(PacketType::CONNACK)
        } else if code == 3 {
            Some(PacketType::PUBLISH)
        } else if code == 4 {
            Some(PacketType::PUBACK)
        } else if code == 5 {
            Some(PacketType::PUBREC)
        } else if code == 6 {
            Some(PacketType::PUBREL)
        } else if code == 7 {
            Some(PacketType::PUBCOMP)
        } else if code == 8 {
            Some(PacketType::SUBSCRIBE)
        } else if code == 9 {
            Some(PacketType::SUBACK)
        } else if code == 10 {
            Some(PacketType::UNSUBSCRIBE)
        } else if code == 11 {
            Some(PacketType::UNSUBACK)
        } else if code == 12 {
            Some(PacketType::PINGREQ)
        } else if code == 13 {
            Some(PacketType::PINGRESP)
        } else if code == 14 {
            Some(PacketType::DISCONNECT)
        } else if code == 15 {
            Some(PacketType::AUTH)
        } else {
            None
        }
    }

    /// The name of the packet type.
    pub open spec fn name(self) -> &'static str {
        match self {
            PacketType::RESERVED => "RESERVED for future use",
            PacketType::CONNECT => "CONNECT",
            PacketType::CONNACK => "CONNACK",
            PacketType::PUBLISH => "PUBLISH",
            PacketType::PUBACK => "PUBACK",
            PacketType::PUBREC => "PUBREC",
            PacketType::PUBREL => "PUBREL",
            PacketType::PUBCOMP => "PUBCOMP",
            PacketType::SUBSCRIBE => "SUBSCRIBE",
            PacketType::SUBACK => "SUBACK",
            PacketType::UNSUBSCRIBE => "UNSUBSCRIBE",
            PacketType::UNSUBACK => "UNSUBACK",
            PacketType::PINGREQ => "PINGREQ",
            PacketType::PINGRESP => "PINGRESP",
            PacketType::DISCONNECT => "DISCONNECT",
            PacketType::AUTH => "AUTH",
        }
    }

    /// The name in words.
    pub fn as_str(&self) -> (name: &'static str)
        ensures
            name == self.name(),
    {
        match self {
            PacketType::RESERVED => "RESERVED for future use",
            PacketType::CONNECT => "CONNECT",
            PacketType::CONNACK => "CONNACK",
            PacketType::PUBLISH => "PUBLISH",
            PacketType::PUBACK => "PUBACK",
            PacketType::PUBREC => "PUBREC",
            PacketType::PUBREL => "PUBREL",
            PacketType::PUBCOMP => "PUBCOMP",
            PacketType::SUBSCRIBE => "SUBSCRIBE",
            PacketType::SUBACK => "SUBACK",
            PacketType::UNSUBSCRIBE => "UNSUBSCRIBE",
            PacketType::UNSUBACK => "UNSUBACK",
            PacketType::PINGREQ => "PINGREQ",
            PacketType::PINGRESP => "PINGRESP",
            PacketType::DISCONNECT => "DISCONNECT",
            PacketType::AUTH => "AUTH",
        }
    }

    /// The number of the packet type.
    pub fn to_u8(&self) -> (code: u8)
        ensures
            code == self.code(),
            code < 16,
    {
        match self {
            PacketType::RESERVED => 0,
            PacketType::CONNECT => 1,
            PacketType::CONNACK => 2,
            PacketType::PUBLISH => 3,
            PacketType::PUBACK => 4,
            PacketType::PUBREC => 5,
            PacketType::PUBREL => 6,
            PacketType::PUBCOMP => 7,
            PacketType::SUBSCRIBE => 8,
            PacketType::SUBACK => 9,
            PacketType::UNSUBSCRIBE => 10,
            PacketType::UNSUBACK => 11,
            PacketType::PINGREQ => 12,
            PacketType::PINGRESP => 13,
            PacketType::DISCONNECT => 14,
            PacketType::AUTH => 15,
        }
    }

    /// The packet type of a number: every number below 16 has one, no other has.
    pub fn from_u8(code: u8) -> (packet_type: Option<PacketType>)
        ensures
            packet_type == PacketType::of_code(code),
            packet_type is Some <==> code < 16,
            packet_type matches Some(t) ==> t.code() == code,
    {
        match code {
            0 => Some(PacketType::RESERVED),
            1 => Some(PacketType::CONNECT),
            2 => Some(PacketType::CONNACK),
            3 => Some(PacketType::PUBLISH),
            4 => Some(PacketType::PUBACK),
            5 => Some(PacketType::PUBREC),
            6 => Some(PacketType::PUBREL),
            7 => Some(PacketType::PUBCOMP),
            8 => Some(PacketType::SUBSCRIBE),
            9 => Some(PacketType::SUBACK),
            10 => Some(PacketType::UNSUBSCRIBE),
            11 => Some(PacketType::UNSUBACK),
            12 => Some(PacketType::PINGREQ),
            13 => Some(PacketType::PINGRESP),
            14 => Some(PacketType::DISCONNECT),
            15 => Some(PacketType::AUTH),
            _ => None,
        }
    }
}

/// The reason codes that several packets share, each with its number.
#[derive(Debug, Clone, Copy, PartialEq, Eq, Structural)]
pub enum ReasonCode {
    Success,
    NoMatchingSubscribers,
    UnspecifiedError,
    MalformedPacket,
    ProtocolError,
    ImplSpecificError,
    NotAuthorized,
    ServerBusy,
    BadAuthMethod,
    TopicFilterInvalid,
    TopicNameInvalid,
    PacketIdentifierInUse,
    PacketIdentifierNotFound,
    PacketTooLarge,
    QuotaExceeded,
    PayloadFormatInvalid,
    RetainNotSupported,
    QoSNotSupported,
    UseAnotherServer,
    ServerMoved,
    SharedSubscriptionsNotSupported,
    ConnectionRateExceeded,
    SubscriptionIdsNotSupported,
    WildcardSubscriptionsNotSupported,
}

impl ReasonCode {
    /// The number of the reason code.
    pub open spec fn code(self) -> u8 {
        match self {
            ReasonCode::Success => 0x00,
            ReasonCode::NoMatchingSubscribers => 0x10,
            ReasonCode::UnspecifiedError => 0x80,
            ReasonCode::MalformedPacket => 0x81,
            ReasonCode::ProtocolError => 0x82,
            ReasonCode::ImplSpecificError => 0x83,
            ReasonCode::NotAuthorized => 0x87,
            ReasonCode::ServerBusy => 0x89,
            ReasonCode::BadAuthMethod => 0x8C,
            ReasonCode::TopicFilterInvalid => 0x8F,
            ReasonCode::TopicNameInvalid => 0x90,
            ReasonCode::PacketIdentifierInUse => 0x91,
            ReasonCode::PacketIdentifierNotFound => 0x92,
            ReasonCode::PacketTooLarge => 0x95,
            ReasonCode::QuotaExceeded => 0x97,
            ReasonCode::PayloadFormatInvalid => 0x99,
            ReasonCode::RetainNotSupported => 0x9A,
            ReasonCode::QoSNotSupported => 0x9B,
            ReasonCode::UseAnotherServer => 0x9C,
            ReasonCode::ServerMoved => 0x9D,
            ReasonCode::SharedSubscriptionsNotSupported => 0x9E,
            ReasonCode::ConnectionRateExceeded => 0x9F,
            ReasonCode::SubscriptionIdsNotSupported => 0xA1,
            ReasonCode::WildcardSubscriptionsNotSupported => 0xA2,
        }
    }

    /// The meaning of the reason code in words.
    pub open spec fn name(self) -> &'static str {
        match self {
            ReasonCode::Success => "Success",
            ReasonCode::NoMatchingSubscribers => "No matching subscribers",
            ReasonCode::UnspecifiedError => "Unspecified error",
            ReasonCode::MalformedPacket => "Malformed Packet",
            ReasonCode::ProtocolError => "Protocol Error",
            ReasonCode::ImplSpecificError => "Implementation specific error",
            ReasonCode::NotAuthorized => "Not authorized",
            ReasonCode::ServerBusy => "Server busy",
            ReasonCode::BadAuthMethod => "Bad authentication method",
            ReasonCode::TopicFilterInvalid => "Topic Filter invalid",
            ReasonCode::TopicNameInvalid => "Topic Name invalid",
            ReasonCode::PacketIdentifierInUse => "Packet Identifier in use",
            ReasonCode::PacketIdentifierNotFound => "Packet Identifier not found",
            ReasonCode::PacketTooLarge => "Packet too large",
            ReasonCode::QuotaExceeded => "Quota exceeded",
            ReasonCode::PayloadFormatInvalid => "Payload format invalid",
            ReasonCode::RetainNotSupported => "Retain not supported",
            ReasonCode::QoSNotSupported => "QoS not supported",
            ReasonCode::UseAnotherServer => "Use another server",
            ReasonCode::ServerMoved => "Server moved",
            ReasonCode::SharedSubscriptionsNotSupported => "Shared Subscriptions not supported",
            ReasonCode::ConnectionRateExceeded => "Connection rate exceeded",
            ReasonCode::SubscriptionIdsNotSupported => "Subscription Identifiers not supported",
            ReasonCode::WildcardSubscriptionsNotSupported => "Wildcard Subscriptions not supported",
        }
    }

    /// The name in words.
    pub fn as_str(&self) -> (name: &'static str)
        ensures
            name == self.name(),
    {
        match self {
            ReasonCode::Success => "Success",
            ReasonCode::NoMatchingSubscribers => "No matching subscribers",
            ReasonCode::UnspecifiedError => "Unspecified error",
            ReasonCode::MalformedPacket => "Malformed Packet",
            ReasonCode::ProtocolError => "Protocol Error",
            ReasonCode::ImplSpecificError => "Implementation specific error",
            ReasonCode::NotAuthorized => "Not authorized",
            ReasonCode::ServerBusy => "Server busy",
            ReasonCode::BadAuthMethod => "Bad authentication method",
            ReasonCode::TopicFilterInvalid => "Topic Filter invalid",
            ReasonCode::TopicNameInvalid => "Topic Name invalid",
            ReasonCode::PacketIdentifierInUse => "Packet Identifier in use",
            ReasonCode::PacketIdentifierNotFound => "Packet Identifier not found",
            ReasonCode::PacketTooLarge => "Packet too large",
            ReasonCode::QuotaExceeded => "Quota exceeded",
            ReasonCode::PayloadFormatInvalid => "Payload format invalid",
            ReasonCode::RetainNotSupported => "Retain not supported",
            ReasonCode::QoSNotSupported => "QoS not supported",
            ReasonCode::UseAnotherServer => "Use another server",
            ReasonCode::ServerMoved => "Server moved",
            ReasonCode::SharedSubscriptionsNotSupported => "Shared Subscriptions not supported",
            ReasonCode::ConnectionRateExceeded => "Connection rate exceeded",
            ReasonCode::SubscriptionIdsNotSupported => "Subscription Identifiers not supported",
            ReasonCode::WildcardSubscriptionsNotSupported => "Wildcard Subscriptions not supported",
        }
    }

    /// The number of the reason code.
    pub fn to_u8(&self) -> (code: u8)
        ensures
            code == self.code(),
    {
        match self {
            ReasonCode::Success => 0x00,
            ReasonCode::NoMatchingSubscribers => 0x10,
            ReasonCode::UnspecifiedError => 0x80,
            ReasonCode::MalformedPacket => 0x81,
            ReasonCode::ProtocolError => 0x82,
            ReasonCode::ImplSpecificError => 0x83,
            ReasonCode::NotAuthorized => 0x87,
            ReasonCode::ServerBusy => 0x89,
            ReasonCode::BadAuthMethod => 0x8C,
            ReasonCode::TopicFilterInvalid => 0x8F,
            ReasonCode::TopicNameInvalid => 0x90,
            ReasonCode::PacketIdentifierInUse => 0x91,
            ReasonCode::PacketIdentifierNotFound => 0x92,
            ReasonCode::PacketTooLarge => 0x95,
            ReasonCode::QuotaExceeded => 0x97,
            ReasonCode::PayloadFormatInvalid => 0x99,
            ReasonCode::RetainNotSupported => 0x9A,
            ReasonCode::QoSNotSupported => 0x9B,
            ReasonCode::UseAnotherServer => 0x9C,
            ReasonCode::ServerMoved => 0x9D,
            ReasonCode::SharedSubscriptionsNotSupported => 0x9E,
            ReasonCode::ConnectionRateExceeded => 0x9F,
            ReasonCode::SubscriptionIdsNotSupported => 0xA1,
            ReasonCode::WildcardSubscriptionsNotSupported => 0xA2,
        }
    }
}

/// Reading a fixed header: the first byte of the packet, then the length of
/// what follows as a variable-length integer.
pub open spec fn parse_fixed_header(s: Seq<u8>) -> Result<((u8, u32), nat), ErrorView> {
    match parse_u8(s) {
        Err(e) => Err(ErrorView::IOError(e)),
        Ok((byte0, n)) => match parse_varuint32(s.skip(n as int)) {
            Err(e) => Err(ErrorView::IOError(e)),
            Ok((remaining_len, m)) => Ok(((byte0, remaining_len), n + m)),
        },
    }
}

/// The number of bytes that the reading of a fixed header takes from the
/// input, whether it succeeds or fails: the first byte, where there is one,
/// and what the length takes.
pub open spec fn fixed_header_taken(s: Seq<u8>) -> nat {
    if s.len() < 1 {
        0
    } else {
        1 + varuint_taken(s.skip(1), 4)
    }
}

/// A fixed header takes its first byte and at most four bytes of length.
pub proof fn lemma_fixed_header_len(s: Seq<u8>)
    ensures
        parse_fixed_header(s) matches Ok((header, n)) ==> 2 <= n <= 5 && n <= s.len()
            && header.1 <= MAX_VARUINT32,
{
    reveal(parse_fixed_header);
    if s.len() >= 1 {
        lemma_parse_varuint32_bounds(s.skip(1));
    }
}

/// The reader of the fixed header of a packet.
pub struct FixedHeaderReader {}

impl FixedHeaderReader {
    /// Reads the first byte of a packet and the length of what follows it.
    pub fn read<R: Reader>(r: &mut R) -> (res: Result<(u8, u32), Error>)
        ensures
            reads(
                old(r).source(),
                final(r).source(),
                res,
                parse_fixed_header(old(r).source().remaining),
            ),
            final(r).source().remaining == old(r).source().remaining.skip(
                fixed_header_taken(old(r).source().remaining) as int,
            ),
            fixed_header_taken(old(r).source().remaining) <= 5,
    {
        proof {
            reveal(parse_fixed_header);
        }
        let ghost start = r.source().remaining;
        proof {
            assert(start.skip(0) == start);
            if start.len() >= 1 {
                let k = varuint_taken(start.skip(1), 4);
                lemma_varuint_taken(start.skip(1), 4);
                assert(start.skip(1).skip(k as int) =~= start.skip((1 + k) as int));
            }
        }
        let byte0: u8 = lift(r.read_u8())?;
        let remaining_len: u32 = lift(r.read_varuint32())?;
        proof {
            let m = parse_varuint32(start.skip(1))->Ok_0.1;
            assert(start.skip(1).skip(m as int) == start.skip((1 + m) as int));
        }
        Ok((byte0, remaining_len))
    }
}

} // verus!
