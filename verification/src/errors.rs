//! Failures of packet assembly and of topic validation.

use vstd::prelude::*;
use crate::mqttio::errors::Error as CodecError;

verus! {

/// Failures of reading and writing a packet.
#[derive(Debug, Clone, PartialEq, Eq)]
pub enum Error {
    /// A topic is longer than 65535 bytes.
    TopicLenTooLong,
    /// A topic holds a wildcard where none may stand.
    InvalidTopic,
    /// A subscription to the empty topic.
    EmptySubscriptionTopic,
    /// A property that may occur once occurred again; carries the property's name.
    PropertyAlreadyExists(&'static str),
    /// The protocol name is not the expected one; carries what was found.
    InvalidProtocolName(String),
    /// The protocol version is not 5.
    InvalidProtocolVersion,
    /// The reserved connect flag is set.
    InvalidConnectFlags,
    /// The quality of service of the will is out of range, or set without a will.
    InvalidWillQos,
    /// A quality-of-service flag is out of range.
    InvalidQosFlags,
    /// The will is to be retained, but there is no will.
    InvalidWillRetain,
    /// A property identifier that the packet does not hold.
    InvalidPropertyID(u32),
    /// A property identifier that the will does not hold.
    InvalidWillPropertyID(u32),
    /// A failure of the codec below.
    IOError(CodecError),
    /// The length of the packet behind its fixed header is more than the
    /// largest variable-length integer.
    InvalidRemaningLength,
}

/// A packet failure as a plain value: what the failure is, with text as characters.
pub enum ErrorView {
    TopicLenTooLong,
    InvalidTopic,
    EmptySubscriptionTopic,
    PropertyAlreadyExists(&'static str),
    InvalidProtocolName(Seq<char>),
    InvalidProtocolVersion,
    InvalidConnectFlags,
    InvalidWillQos,
    InvalidQosFlags,
    InvalidWillRetain,
    InvalidPropertyID(u32),
    InvalidWillPropertyID(u32),
    IOError(CodecError),
    InvalidRemaningLength,
}

impl View for Error {
    type V = ErrorView;

    open spec fn view(&self) -> ErrorView {
        match self {
            Error::TopicLenTooLong => ErrorView::TopicLenTooLong,
            Error::InvalidTopic => ErrorView::InvalidTopic,
            Error::EmptySubscriptionTopic => ErrorView::EmptySubscriptionTopic,
            Error::PropertyAlreadyExists(name) => ErrorView::PropertyAlreadyExists(*name),
            Error::InvalidProtocolName(found) => ErrorView::InvalidProtocolName(found@),
            Error::InvalidProtocolVersion => ErrorView::InvalidProtocolVersion,
            Error::InvalidConnectFlags => ErrorView::InvalidConnectFlags,
            Error::InvalidWillQos => ErrorView::InvalidWillQos,
            Error::InvalidQosFlags => ErrorView::InvalidQosFlags,
            Error::InvalidWillRetain => ErrorView::InvalidWillRetain,
            Error::InvalidPropertyID(id) => ErrorView::InvalidPropertyID(*id),
            Error::InvalidWillPropertyID(id) => ErrorView::InvalidWillPropertyID(*id),
            Error::IOError(e) => ErrorView::IOError(*e),
            Error::InvalidRemaningLength => ErrorView::InvalidRemaningLength,
        }
    }
}

/// Hands a result of the codec on as a result of packet assembly.
pub fn lift<T>(r: Result<T, CodecError>) -> (res: Result<T, Error>)
    ensures
        match r {
            Ok(v) => res == Ok::<T, Error>(v),
            Err(e) => res == Err::<T, Error>(Error::IOError(e)),
        },
{
    match r {
        Ok(v) => Ok(v),
        Err(e) => Err(Error::IOError(e)),
    }
}

/// A failure of the reading of a property block as a packet failure: an
/// identifier that the block does not hold and a second value for a slot are
/// packet failures of their own; any other failure is carried as a failure of
/// the codec.
pub open spec fn block_error(e: CodecError) -> ErrorView {
    match e {
        CodecError::InvalidPropertyID(id) => ErrorView::InvalidPropertyID(id),
        CodecError::PropertyAlreadyExists(name) => ErrorView::PropertyAlreadyExists(name),
        _ => ErrorView::IOError(e),
    }
}

/// Hands the result of the reading of a property block on as a result of
/// packet assembly.
pub fn lift_block<T>(r: Result<T, CodecError>) -> (res: Result<T, Error>)
    ensures
        match r {
            Ok(v) => res == Ok::<T, Error>(v),
            Err(e) => res matches Err(g) && g@ == block_error(e),
        },
{
    match r {
        Ok(v) => Ok(v),
        Err(CodecError::InvalidPropertyID(id)) => Err(Error::InvalidPropertyID(id)),
        Err(CodecError::PropertyAlreadyExists(name)) => Err(Error::PropertyAlreadyExists(name)),
        Err(e) => Err(Error::IOError(e)),
    }
}

/// Why a topic to publish to is refused.
#[derive(Debug, Clone, PartialEq, Eq)]
pub enum PublishTopicValidationError {
    /// The topic is longer than 65535 bytes.
    TopicLenTooLong,
    /// The topic holds a wildcard.
    InvalidTopic,
}

/// Why a topic filter to subscribe to is refused.
#[derive(Debug, Clone, PartialEq, Eq)]
pub enum SubscribeTopicValidationError {
    /// The filter is longer than 65535 bytes.
    TopicLenTooLong,
    /// The filter is empty.
    EmptySubscriptionTopic,
    /// The filter holds the given wildcard where it may not stand.
    InvalidTopic(char),
}

} // verus!
