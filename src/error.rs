//! Errors of receiving and sending.
use vstd::prelude::*;

verus! {

/// Relies on `std::io::Error` only as a value carried inside `ReceiveErr` and
/// `SendErr`; nothing is assumed about it.
#[verifier::external_type_specification]
#[verifier::external_body]
pub struct ExIoError(std::io::Error);

/// Relies on `strong_xml::XmlError` only as a value carried inside
/// `ReceiveErr`; nothing is assumed about it.
#[verifier::external_type_specification]
#[verifier::external_body]
pub struct ExXmlError(strong_xml::XmlError);

/// A room message could not be built from its record.
#[derive(Debug)]
pub enum ComMessageBuildErr {
    FailedBuildingMemento(String),
}

/// Why no further message can come.
#[derive(Debug)]
pub enum ConnectionClosedErr {
    ServerClosed,
    ProtocolEnded,
    NoMessageReceivedFor(std::time::Duration),
}

/// Failure while receiving.
#[derive(Debug)]
pub enum ReceiveErr {
    Io(std::io::Error),
    XmlError(strong_xml::XmlError),
    ConnectionClosed(ConnectionClosedErr),
    FailedToBuildRoomMessage(String),
    FailedToBuildAdminMessage(String),
}

/// Failure while sending.
#[derive(Debug)]
pub enum SendErr {
    NoRoomId,
    FailedToBuildXml,
    Io(std::io::Error),
}

/// Communication error.
#[derive(Debug)]
pub enum ComError {
    SendErr(SendErr),
    ReceiveErr(ReceiveErr),
}

impl From<std::io::Error> for ReceiveErr {
    fn from(err: std::io::Error) -> (r: ReceiveErr)
        ensures
            r == ReceiveErr::Io(err),
    {
        ReceiveErr::Io(err)
    }
}

impl vstd::std_specs::convert::FromSpecImpl<std::io::Error> for ReceiveErr {
    open spec fn obeys_from_spec() -> bool {
        true
    }

    open spec fn from_spec(v: std::io::Error) -> ReceiveErr {
        ReceiveErr::Io(v)
    }
}

impl From<strong_xml::XmlError> for ReceiveErr {
    fn from(err: strong_xml::XmlError) -> (r: ReceiveErr)
        ensures
            r == ReceiveErr::XmlError(err),
    {
        ReceiveErr::XmlError(err)
    }
}

impl vstd::std_specs::convert::FromSpecImpl<strong_xml::XmlError> for ReceiveErr {
    open spec fn obeys_from_spec() -> bool {
        true
    }

    open spec fn from_spec(v: strong_xml::XmlError) -> ReceiveErr {
        ReceiveErr::XmlError(v)
    }
}

impl From<std::io::Error> for SendErr {
    fn from(err: std::io::Error) -> (r: SendErr)
        ensures
            r == SendErr::Io(err),
    {
        SendErr::Io(err)
    }
}

impl vstd::std_specs::convert::FromSpecImpl<std::io::Error> for SendErr {
    open spec fn obeys_from_spec() -> bool {
        true
    }

    open spec fn from_spec(v: std::io::Error) -> SendErr {
        SendErr::Io(v)
    }
}

impl From<SendErr> for ComError {
    fn from(value: SendErr) -> (r: ComError)
        ensures
            r == ComError::SendErr(value),
    {
        ComError::SendErr(value)
    }
}

impl vstd::std_specs::convert::FromSpecImpl<SendErr> for ComError {
    open spec fn obeys_from_spec() -> bool {
        true
    }

    open spec fn from_spec(v: SendErr) -> ComError {
        ComError::SendErr(v)
    }
}

impl From<ReceiveErr> for ComError {
    fn from(value: ReceiveErr) -> (r: ComError)
        ensures
            r == ComError::ReceiveErr(value),
    {
        ComError::ReceiveErr(value)
    }
}

impl vstd::std_specs::convert::FromSpecImpl<ReceiveErr> for ComError {
    open spec fn obeys_from_spec() -> bool {
        true
    }

    open spec fn from_spec(v: ReceiveErr) -> ComError {
        ComError::ReceiveErr(v)
    }
}

} // verus!
