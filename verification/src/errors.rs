//! The error taxonomy of the trigger core.

use vstd::prelude::*;

verus! {

use vstd::string::StringExecFns;

/// Everything that can go wrong inside the verified core. Transport-level
/// failures live with the adapters, outside this crate's scope.
#[derive(Clone, Copy, Debug, PartialEq, Eq, Structural)]
pub enum TriggerError {
    /// A publish was attempted without a subject.
    NoSubject,
    /// A binding without a subscription type cannot be subscribed.
    NoSubscriptionType,
    /// A message named a broker that the registry does not hold.
    UnknownBroker,
    /// An envelope could not be decoded under the bus framing.
    DecodeFailed,
    /// An envelope could not be encoded under the bus framing.
    EncodeFailed,
    /// A websocket framing name was not recognised.
    InvalidWebsocketProtocol,
    /// A request/response serializer name was not recognised.
    InvalidRequestResponseProtocol,
}

impl TriggerError {
    /// The error rendered as text, matching the messages the runtime logs.
    pub fn text(&self) -> (r: String)
        ensures
            r@ == match *self {
                TriggerError::NoSubject => "No Subject To Publish"@,
                TriggerError::NoSubscriptionType => "No Subscription Type Set"@,
                TriggerError::UnknownBroker => "No such broker"@,
                TriggerError::DecodeFailed => "couldn't process result"@,
                TriggerError::EncodeFailed => "Couldn't Serialize body"@,
                TriggerError::InvalidWebsocketProtocol => "Invalid Websocket Protocol"@,
                TriggerError::InvalidRequestResponseProtocol => "Invalid Gateway Request Response Protocol"@,
            },
    {
        match *self {
            TriggerError::NoSubject => String::from_str("No Subject To Publish"),
            TriggerError::NoSubscriptionType => String::from_str("No Subscription Type Set"),
            TriggerError::UnknownBroker => String::from_str("No such broker"),
            TriggerError::DecodeFailed => String::from_str("couldn't process result"),
            TriggerError::EncodeFailed => String::from_str("Couldn't Serialize body"),
            TriggerError::InvalidWebsocketProtocol => String::from_str("Invalid Websocket Protocol"),
            TriggerError::InvalidRequestResponseProtocol => String::from_str(
                "Invalid Gateway Request Response Protocol",
            ),
        }
    }
}

} // verus!
