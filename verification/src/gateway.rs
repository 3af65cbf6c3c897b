//! Gateway decisions: request/response deadlines, status mapping, and the
//! websocket framings. The listening socket, the upgrades and the JSON
//! text framing live with the adapter layer; every decision about what a
//! frame holds is made here.

use vstd::prelude::*;

verus! {

use vstd::utf8::{decode_utf8, encode_utf8, valid_utf8};
use crate::codec::{
    dec_string,
    enc_string,
    encode_output_message,
    decode_output_message,
    encode_input_message,
    lemma_dec_string_enc,
    spec_dec_output,
    spec_dec_string,
    spec_enc_input,
    spec_enc_output,
    spec_enc_string,
    spec_input_wf,
    spec_output_wf,
    string_from_utf8,
};
use crate::configs::WebsocketConfig;
use crate::http::HttpResponse;
use crate::messages::{InputMessage, OutputMessage, OutputMessageView};

/// The deadline applied to a gateway request when the configuration names
/// none, in milliseconds.
pub const DEFAULT_REQUEST_TIMEOUT_MS: u64 = 2000;

/// The deadline for one request/response exchange.
pub fn request_timeout_ms(timeout: &Option<u64>) -> (r: u64)
    ensures
        r == match *timeout {
            Option::Some(t) => t,
            Option::None => DEFAULT_REQUEST_TIMEOUT_MS as u64,
        },
{
    match timeout {
        Option::Some(t) => *t,
        Option::None => DEFAULT_REQUEST_TIMEOUT_MS,
    }
}

/// How one request/response exchange at the gateway ended.
pub enum RequestExchange {
    /// A reply arrived and decoded: its own status answers the client.
    Answered(HttpResponse),
    /// The exchange failed before the deadline.
    Failed,
    /// The deadline elapsed without a reply.
    TimedOut,
    /// The gateway has no request/response serializer configured.
    NotConfigured,
}

/// The HTTP status the gateway answers with: an answered exchange speaks
/// for itself, a failure is a server error, a missed deadline is a gateway
/// timeout, and an unconfigured route is a bad request.
pub fn gateway_status(exchange: &RequestExchange) -> (r: u16)
    ensures
        r == match *exchange {
            RequestExchange::Answered(resp) => resp.status,
            RequestExchange::Failed => 500u16,
            RequestExchange::TimedOut => 504u16,
            RequestExchange::NotConfigured => 400u16,
        },
{
    match exchange {
        RequestExchange::Answered(resp) => resp.status,
        RequestExchange::Failed => 500,
        RequestExchange::TimedOut => 504,
        RequestExchange::NotConfigured => 400,
    }
}

/// One frame on a subscription websocket.
pub enum WsFrame {
    Binary(Vec<u8>),
    Text(String),
}

impl WebsocketConfig {
    /// Whether this framing sends binary frames.
    pub fn is_binary(&self) -> (r: bool)
        ensures
            r == match *self {
                WebsocketConfig::BinaryBody => true,
                WebsocketConfig::TextBody => false,
                WebsocketConfig::Messagepack => true,
                WebsocketConfig::Json => false,
            },
    {
        match self {
            WebsocketConfig::BinaryBody => true,
            WebsocketConfig::TextBody => false,
            WebsocketConfig::Messagepack => true,
            WebsocketConfig::Json => false,
        }
    }
}

/// The frame one inbound message becomes on a subscription socket: the raw
/// body as a binary frame, the body as text when it is valid UTF-8 (else
/// the message is dropped), or the whole envelope in the bus framing. The
/// JSON text framing serializes the adapter layer's copy of the message
/// and is produced there.
pub fn frame_message(config: &WebsocketConfig, message: &InputMessage) -> (r: Option<WsFrame>)
    requires
        *config is Messagepack ==> spec_input_wf(message@),
    ensures
        match *config {
            WebsocketConfig::BinaryBody => r matches Option::Some(WsFrame::Binary(b)) && b@
                == message@.message,
            WebsocketConfig::TextBody => if valid_utf8(message@.message) {
                r matches Option::Some(WsFrame::Text(t)) && t@ == decode_utf8(message@.message)
            } else {
                r is None
            },
            WebsocketConfig::Messagepack => r matches Option::Some(WsFrame::Binary(b)) && b@
                == spec_enc_input(message@),
            WebsocketConfig::Json => r is None,
        },
{
    match config {
        WebsocketConfig::BinaryBody => {
            let mut b: Vec<u8> = Vec::new();
            push_all(&mut b, &message.message);
            Option::Some(WsFrame::Binary(b))
        },
        WebsocketConfig::TextBody => {
            let mut b: Vec<u8> = Vec::new();
            push_all(&mut b, &message.message);
            match string_from_utf8(b) {
                Option::Some(t) => Option::Some(WsFrame::Text(t)),
                Option::None => Option::None,
            }
        },
        WebsocketConfig::Messagepack => Option::Some(
            WsFrame::Binary(encode_input_message(message)),
        ),
        WebsocketConfig::Json => Option::None,
    }
}

fn push_all(out: &mut Vec<u8>, b: &Vec<u8>)
    ensures
        final(out)@ == old(out)@ + b@,
{
    let mut i: usize = 0;
    let ghost pre = out@;
    while i < b.len()
        invariant
            i <= b.len(),
            out@ == pre + b@.subrange(0, i as int),
        decreases b.len() - i,
    {
        out.push(b[i]);
        proof {
            assert(pre + b@.subrange(0, i as int) + seq![b@[i as int]] =~= pre + b@.subrange(
                0,
                i + 1 as int,
            ));
        }
        i += 1;
    }
    proof {
        assert(b@.subrange(0, b@.len() as int) =~= b@);
    }
}

/// One envelope on the bidirectional `/ws` socket: attach a subscription,
/// or publish a message.
pub enum BidirectionalSocketMessage {
    Subscribe(String),
    Publish(OutputMessage),
}

/// Model of a socket envelope.
#[verifier::ext_equal]
pub ghost enum SocketMessageView {
    Subscribe(Seq<char>),
    Publish(OutputMessageView),
}

impl View for BidirectionalSocketMessage {
    type V = SocketMessageView;

    open spec fn view(&self) -> SocketMessageView {
        match *self {
            BidirectionalSocketMessage::Subscribe(s) => SocketMessageView::Subscribe(s@),
            BidirectionalSocketMessage::Publish(o) => SocketMessageView::Publish(o@),
        }
    }
}

/// A socket envelope is encodable when its payload fits the framing.
pub open spec fn spec_socket_message_wf(m: SocketMessageView) -> bool {
    match m {
        SocketMessageView::Subscribe(s) => encode_utf8(s).len() < 4294967296,
        SocketMessageView::Publish(o) => spec_output_wf(o),
    }
}

/// A socket envelope on the wire: a tag byte, then the payload.
pub open spec fn spec_enc_socket_message(m: SocketMessageView) -> Seq<u8> {
    match m {
        SocketMessageView::Subscribe(s) => seq![0u8] + spec_enc_string(s),
        SocketMessageView::Publish(o) => seq![1u8] + spec_enc_output(o),
    }
}

/// Reading a socket envelope, consuming the buffer exactly.
pub open spec fn spec_dec_socket_message(b: Seq<u8>) -> Option<SocketMessageView> {
    if b.len() < 1 {
        Option::None
    } else if b[0] == 0 {
        match spec_dec_string(b, 1) {
            Option::Some((s, q)) => if q == b.len() {
                Option::Some(SocketMessageView::Subscribe(s))
            } else {
                Option::None
            },
            Option::None => Option::None,
        }
    } else if b[0] == 1 {
        match spec_dec_output(b.skip(1)) {
            Option::Some(o) => Option::Some(SocketMessageView::Publish(o)),
            Option::None => Option::None,
        }
    } else {
        Option::None
    }
}

/// Law: decoding inverts encoding for socket envelopes.
pub proof fn lemma_socket_message_roundtrip(m: SocketMessageView)
    requires
        spec_socket_message_wf(m),
    ensures
        spec_dec_socket_message(spec_enc_socket_message(m)) == Option::Some(m),
{
    let b = spec_enc_socket_message(m);
    match m {
        SocketMessageView::Subscribe(s) => {
            let a = spec_enc_string(s);
            assert(b.subrange(1, 1 + a.len() as int) =~= a);
            lemma_dec_string_enc(s, b, 1);
        },
        SocketMessageView::Publish(o) => {
            assert(b.skip(1) =~= spec_enc_output(o));
            crate::codec::lemma_output_roundtrip(o);
        },
    }
}

/// Encodes a socket envelope for a binary frame.
pub fn encode_socket_message(m: &BidirectionalSocketMessage) -> (out: Vec<u8>)
    requires
        spec_socket_message_wf(m@),
    ensures
        out@ == spec_enc_socket_message(m@),
{
    match m {
        BidirectionalSocketMessage::Subscribe(s) => {
            let mut out: Vec<u8> = Vec::new();
            out.push(0u8);
            enc_string(&mut out, s.as_str());
            proof {
                assert(out@ =~= spec_enc_socket_message(m@));
            }
            out
        },
        BidirectionalSocketMessage::Publish(o) => {
            let mut out: Vec<u8> = Vec::new();
            out.push(1u8);
            let payload = encode_output_message(o);
            push_all(&mut out, &payload);
            proof {
                assert(out@ =~= spec_enc_socket_message(m@));
            }
            out
        },
    }
}

/// Decodes a socket envelope from a binary frame.
pub fn decode_socket_message(bytes: &Vec<u8>) -> (r: Option<BidirectionalSocketMessage>)
    ensures
        match r {
            Option::Some(m) => spec_dec_socket_message(bytes@) == Option::Some(m@),
            Option::None => spec_dec_socket_message(bytes@) is None,
        },
{
    if bytes.len() < 1 {
        return Option::None;
    }
    let tag = bytes[0];
    if tag == 0 {
        match dec_string(bytes, 1) {
            Option::Some((s, q)) => {
                if q == bytes.len() {
                    Option::Some(BidirectionalSocketMessage::Subscribe(s))
                } else {
                    Option::None
                }
            },
            Option::None => Option::None,
        }
    } else if tag == 1 {
        let mut payload: Vec<u8> = Vec::new();
        let mut i: usize = 1;
        while i < bytes.len()
            invariant
                1 <= i <= bytes@.len(),
                payload@ == bytes@.subrange(1, i as int),
            decreases bytes.len() - i,
        {
            payload.push(bytes[i]);
            proof {
                assert(payload@ =~= bytes@.subrange(1, i + 1 as int));
            }
            i += 1;
        }
        proof {
            assert(payload@ =~= bytes@.skip(1));
        }
        match decode_output_message(&payload) {
            Option::Some(o) => Option::Some(BidirectionalSocketMessage::Publish(o)),
            Option::None => Option::None,
        }
    } else {
        Option::None
    }
}

} // verus!
