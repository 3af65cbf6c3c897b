//! Typed configuration model: brokers, gateways, subscriptions and result
//! routing.

use vstd::prelude::*;

verus! {

use crate::errors::TriggerError;
use crate::strutil::str_eq;

/// Credentials for an MQTT broker connection.
pub struct MqttCredentials {
    pub username: String,
    pub password: String,
}

/// Connection settings for an MQTT broker.
pub struct MqttConnectionInfo {
    pub address: String,
    pub id: Option<String>,
    pub keep_alive_seconds: Option<u64>,
    pub credentials: Option<MqttCredentials>,
}

/// How a NATS connection authenticates.
pub enum NatsAuth {
    Token(String),
    User { user: String, password: String },
    NKey(String),
    Jwt { nkey_seed: String, jwt: String },
    CredentialsFile(String),
    CredentialsString(String),
}

/// A client certificate and its key, as file paths.
pub struct ClientCertInfo {
    pub certificate: String,
    pub key: String,
}

/// Connection settings for a NATS broker.
pub struct NatsConnectionInfo {
    pub tls: Option<bool>,
    pub ping_interval: Option<u64>,
    pub addresses: Vec<String>,
    pub auth: Option<NatsAuth>,
    pub root_certificate: Option<String>,
    pub client_certificate: Option<ClientCertInfo>,
    pub client_name: Option<String>,
}

/// Which transport a named broker runs over.
pub enum BrokerTypeConfig {
    InMemoryBroker,
    Redis(String),
    Nats(NatsConnectionInfo),
    Mqtt(MqttConnectionInfo),
}

/// How messages are framed on a subscription websocket.
#[derive(Clone, Copy, Debug, PartialEq, Eq, Structural)]
pub enum WebsocketConfig {
    BinaryBody,
    TextBody,
    Messagepack,
    Json,
}

impl WebsocketConfig {
    /// Parses the websocket framing names accepted on the command line.
    pub fn from_str(s: &str) -> (r: Result<Self, TriggerError>)
        ensures
            r == if s@ == "messagepack"@ {
                Result::<Self, TriggerError>::Ok(WebsocketConfig::Messagepack)
            } else if s@ == "json"@ {
                Result::<Self, TriggerError>::Ok(WebsocketConfig::Json)
            } else if s@ == "binary"@ {
                Result::<Self, TriggerError>::Ok(WebsocketConfig::BinaryBody)
            } else if s@ == "text"@ {
                Result::<Self, TriggerError>::Ok(WebsocketConfig::TextBody)
            } else {
                Result::<Self, TriggerError>::Err(TriggerError::InvalidWebsocketProtocol)
            },
    {
        if str_eq(s, "messagepack") {
            Result::Ok(WebsocketConfig::Messagepack)
        } else if str_eq(s, "json") {
            Result::Ok(WebsocketConfig::Json)
        } else if str_eq(s, "binary") {
            Result::Ok(WebsocketConfig::BinaryBody)
        } else if str_eq(s, "text") {
            Result::Ok(WebsocketConfig::TextBody)
        } else {
            Result::Err(TriggerError::InvalidWebsocketProtocol)
        }
    }
}

/// Which serializer carries the HTTP envelope over the bus.
#[derive(Clone, Copy, Debug, PartialEq, Eq, Structural)]
pub enum GatewayRequestResponseConfig {
    Messagepack,
    Json,
}

impl GatewayRequestResponseConfig {
    /// Parses the request/response serializer names accepted on the command
    /// line.
    pub fn from_str(s: &str) -> (r: Result<Self, TriggerError>)
        ensures
            r == if s@ == "messagepack"@ {
                Result::<Self, TriggerError>::Ok(GatewayRequestResponseConfig::Messagepack)
            } else if s@ == "json"@ {
                Result::<Self, TriggerError>::Ok(GatewayRequestResponseConfig::Json)
            } else {
                Result::<Self, TriggerError>::Err(TriggerError::InvalidRequestResponseProtocol)
            },
    {
        if str_eq(s, "messagepack") {
            Result::Ok(GatewayRequestResponseConfig::Messagepack)
        } else if str_eq(s, "json") {
            Result::Ok(GatewayRequestResponseConfig::Json)
        } else {
            Result::Err(TriggerError::InvalidRequestResponseProtocol)
        }
    }
}

/// Whether a broker exposes an HTTP gateway, and how it behaves.
pub enum GatewayConfig {
    Disabled,
    Http {
        port: u16,
        websockets: Option<WebsocketConfig>,
        request_response: Option<GatewayRequestResponseConfig>,
        timeout: Option<u64>,
    },
}

/// One named broker: its transport and its gateway.
pub struct BrokerConfig {
    pub broker_type: BrokerTypeConfig,
    pub gateway: GatewayConfig,
}

/// The fallback route applied to a handler output that names neither a
/// broker nor a subject of its own.
pub struct MessageResultType {
    pub default_broker: String,
    pub default_subject: String,
}

/// How a handler binding subscribes to its broker.
pub enum SubscriptionType {
    NoSubscription,
    Topic { topic: String, result: Option<MessageResultType> },
    Queue { topic: String, group: String, result: Option<MessageResultType> },
    Request { path: String, method: Option<String> },
}

/// One handler binding: the component to invoke, the broker it listens on,
/// and the subscription that feeds it.
pub struct MessageTriggerConfig {
    pub component: String,
    pub broker: String,
    pub subscription: SubscriptionType,
}

/// The trigger section of the application metadata: the trigger type tag and
/// the named broker definitions.
pub struct MessageMetadata {
    pub trigger_type: String,
    pub brokers: Vec<(String, BrokerConfig)>,
}

} // verus!
