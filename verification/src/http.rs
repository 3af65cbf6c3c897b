//! The HTTP envelope carried over the bus for request/response traffic, and
//! its verified wire codec: the decoder inverts the encoder exactly, so a
//! handler's reply arrives at the gateway verbatim.

use vstd::prelude::*;

verus! {

use vstd::string::StringSliceAdditionalSpecFns;
use vstd::utf8::encode_utf8;
use crate::codec::{
    dec_bytes,
    dec_headers,
    dec_string,
    enc_headers,
    enc_string,
    lemma_buffer_piece,
    lemma_dec_bytes_enc,
    lemma_dec_headers_enc,
    lemma_dec_string_enc,
    push_bytes,
    push_le32,
    spec_dec_bytes,
    spec_dec_headers,
    spec_dec_string,
    spec_enc_bytes,
    spec_enc_headers,
    spec_enc_string,
    spec_headers_view,
    spec_headers_wf,
};
use crate::errors::TriggerError;
use crate::messages::{InputMessage, OutputMessage};
use crate::strutil::str_starts_with;
use vstd::string::{StrSliceExecFns, StringExecFns};

/// Model of a request envelope.
#[verifier::ext_equal]
pub ghost struct HttpRequestView {
    pub method: Seq<char>,
    pub headers: Seq<(Seq<char>, Seq<char>)>,
    pub uri: Seq<char>,
    pub path: Seq<char>,
    pub body: Seq<u8>,
}

/// An HTTP request as it travels over the bus: the method name, the header
/// pairs, the full URI, the path the gateway matched, and the raw body.
pub struct HttpRequest {
    pub method: String,
    pub headers: Vec<(String, String)>,
    pub uri: String,
    pub path: String,
    pub body: Vec<u8>,
}

impl View for HttpRequest {
    type V = HttpRequestView;

    open spec fn view(&self) -> HttpRequestView {
        HttpRequestView {
            method: self.method@,
            headers: spec_headers_view(self.headers@),
            uri: self.uri@,
            path: self.path@,
            body: self.body@,
        }
    }
}

/// Model of a response envelope.
#[verifier::ext_equal]
pub ghost struct HttpResponseView {
    pub headers: Seq<(Seq<char>, Seq<char>)>,
    pub status: u16,
    pub body: Seq<u8>,
}

/// An HTTP response as it travels back: the header pairs, the status code,
/// and the raw body.
pub struct HttpResponse {
    pub headers: Vec<(String, String)>,
    pub status: u16,
    pub body: Vec<u8>,
}

impl View for HttpResponse {
    type V = HttpResponseView;

    open spec fn view(&self) -> HttpResponseView {
        HttpResponseView {
            headers: spec_headers_view(self.headers@),
            status: self.status,
            body: self.body@,
        }
    }
}

/// A status code in two little-endian bytes.
pub open spec fn spec_enc_status(st: u16) -> Seq<u8> {
    seq![(st % 256) as u8, (st / 256) as u8]
}

/// A request envelope is encodable when each of its parts fits its length
/// prefix.
pub open spec fn spec_request_wf(r: HttpRequestView) -> bool {
    &&& encode_utf8(r.method).len() < 4294967296
    &&& encode_utf8(r.uri).len() < 4294967296
    &&& encode_utf8(r.path).len() < 4294967296
    &&& spec_headers_wf(r.headers)
    &&& r.body.len() < 4294967296
}

/// A response envelope is encodable when its headers and body fit their
/// length prefixes.
pub open spec fn spec_response_wf(r: HttpResponseView) -> bool {
    &&& spec_headers_wf(r.headers)
    &&& r.body.len() < 4294967296
}

/// A request envelope on the wire: method, URI, path, headers, body.
pub open spec fn spec_enc_request(r: HttpRequestView) -> Seq<u8> {
    spec_enc_string(r.method) + spec_enc_string(r.uri) + spec_enc_string(r.path)
        + spec_enc_headers(r.headers) + spec_enc_bytes(r.body)
}

/// A response envelope on the wire: status, headers, body.
pub open spec fn spec_enc_response(r: HttpResponseView) -> Seq<u8> {
    spec_enc_status(r.status) + spec_enc_headers(r.headers) + spec_enc_bytes(r.body)
}

/// Reading a whole request envelope: every field in order, consuming the
/// buffer exactly.
pub open spec fn spec_dec_request(b: Seq<u8>) -> Option<HttpRequestView> {
    match spec_dec_string(b, 0) {
        Option::Some((method, p1)) => match spec_dec_string(b, p1) {
            Option::Some((uri, p2)) => match spec_dec_string(b, p2) {
                Option::Some((path, p3)) => match spec_dec_headers(b, p3) {
                    Option::Some((headers, p4)) => match spec_dec_bytes(b, p4) {
                        Option::Some((body, p5)) => if p5 == b.len() {
                            Option::Some(HttpRequestView { method, headers, uri, path, body })
                        } else {
                            Option::None
                        },
                        Option::None => Option::None,
                    },
                    Option::None => Option::None,
                },
                Option::None => Option::None,
            },
            Option::None => Option::None,
        },
        Option::None => Option::None,
    }
}

/// Reading a whole response envelope, consuming the buffer exactly.
pub open spec fn spec_dec_response(b: Seq<u8>) -> Option<HttpResponseView> {
    if b.len() < 2 {
        Option::None
    } else {
        let status = (b[0] + 256 * b[1]) as u16;
        match spec_dec_headers(b, 2) {
            Option::Some((headers, p1)) => match spec_dec_bytes(b, p1) {
                Option::Some((body, p2)) => if p2 == b.len() {
                    Option::Some(HttpResponseView { headers, status, body })
                } else {
                    Option::None
                },
                Option::None => Option::None,
            },
            Option::None => Option::None,
        }
    }
}

/// Law: decoding inverts encoding for request envelopes — every field of
/// the request a handler decodes is verbatim the field the gateway sent.
pub proof fn lemma_request_roundtrip(r: HttpRequestView)
    requires
        spec_request_wf(r),
    ensures
        spec_dec_request(spec_enc_request(r)) == Option::Some(r),
{
    let b = spec_enc_request(r);
    let a1 = spec_enc_string(r.method);
    let a2 = spec_enc_string(r.uri);
    let a3 = spec_enc_string(r.path);
    let a4 = spec_enc_headers(r.headers);
    let a5 = spec_enc_bytes(r.body);
    let l1 = a1.len() as int;
    let l2 = a2.len() as int;
    let l3 = a3.len() as int;
    let l4 = a4.len() as int;
    let l5 = a5.len() as int;
    assert(b.subrange(0, b.len() as int) =~= b);
    assert(b.subrange(0, l1) =~= a1);
    lemma_dec_string_enc(r.method, b, 0);
    assert(b.subrange(l1, l1 + l2) =~= a2);
    lemma_dec_string_enc(r.uri, b, l1);
    assert(b.subrange(l1 + l2, l1 + l2 + l3) =~= a3);
    lemma_dec_string_enc(r.path, b, l1 + l2);
    assert(b.subrange(l1 + l2 + l3, l1 + l2 + l3 + l4) =~= a4);
    lemma_dec_headers_enc(r.headers, b, l1 + l2 + l3);
    assert(b.subrange(l1 + l2 + l3 + l4, l1 + l2 + l3 + l4 + l5) =~= a5);
    lemma_dec_bytes_enc(r.body, b, l1 + l2 + l3 + l4);
}

/// Law: decoding inverts encoding for response envelopes — the status, the
/// headers and the body a gateway decodes are verbatim what the handler
/// replied.
pub proof fn lemma_response_roundtrip(r: HttpResponseView)
    requires
        spec_response_wf(r),
    ensures
        spec_dec_response(spec_enc_response(r)) == Option::Some(r),
{
    let b = spec_enc_response(r);
    let a1 = spec_enc_status(r.status);
    let a2 = spec_enc_headers(r.headers);
    let a3 = spec_enc_bytes(r.body);
    let l2 = a2.len() as int;
    let l3 = a3.len() as int;
    assert(b[0] == a1[0] && b[1] == a1[1]);
    assert((r.status % 256) + 256 * (r.status / 256) == r.status as int) by (nonlinear_arith);
    assert(b.subrange(2, 2 + l2) =~= a2);
    lemma_dec_headers_enc(r.headers, b, 2);
    assert(b.subrange(2 + l2, 2 + l2 + l3) =~= a3);
    lemma_dec_bytes_enc(r.body, b, 2 + l2);
}

impl HttpRequest {
    /// Encodes the envelope under the bus framing.
    pub fn encode(&self) -> (out: Vec<u8>)
        requires
            spec_request_wf(self@),
        ensures
            out@ == spec_enc_request(self@),
    {
        let mut out: Vec<u8> = Vec::new();
        enc_string(&mut out, self.method.as_str());
        enc_string(&mut out, self.uri.as_str());
        enc_string(&mut out, self.path.as_str());
        enc_headers(&mut out, &self.headers);
        push_le32(&mut out, self.body.len() as u32);
        push_bytes(&mut out, &self.body);
        proof {
            assert(out@ =~= spec_enc_request(self@));
        }
        out
    }

    /// Decodes an envelope from the bus framing.
    pub fn decode(bytes: &Vec<u8>) -> (r: Result<Self, TriggerError>)
        ensures
            match r {
                Result::Ok(req) => spec_dec_request(bytes@) == Option::Some(req@),
                Result::Err(e) => spec_dec_request(bytes@) is None && e
                    === TriggerError::DecodeFailed,
            },
    {
        let (method, p1) = match dec_string(bytes, 0) {
            Option::None => {
                return Result::Err(TriggerError::DecodeFailed);
            },
            Option::Some(x) => x,
        };
        let (uri, p2) = match dec_string(bytes, p1) {
            Option::None => {
                return Result::Err(TriggerError::DecodeFailed);
            },
            Option::Some(x) => x,
        };
        let (path, p3) = match dec_string(bytes, p2) {
            Option::None => {
                return Result::Err(TriggerError::DecodeFailed);
            },
            Option::Some(x) => x,
        };
        let (headers, p4) = match dec_headers(bytes, p3) {
            Option::None => {
                return Result::Err(TriggerError::DecodeFailed);
            },
            Option::Some(x) => x,
        };
        let (body, p5) = match dec_bytes(bytes, p4) {
            Option::None => {
                return Result::Err(TriggerError::DecodeFailed);
            },
            Option::Some(x) => x,
        };
        if p5 != bytes.len() {
            return Result::Err(TriggerError::DecodeFailed);
        }
        Result::Ok(HttpRequest { method, headers, uri, path, body })
    }

    /// The request a handler sees in an inbound bus message.
    pub fn from_message(message: &InputMessage) -> (r: Result<Self, TriggerError>)
        ensures
            match r {
                Result::Ok(req) => spec_dec_request(message@.message) == Option::Some(req@),
                Result::Err(e) => spec_dec_request(message@.message) is None && e
                    === TriggerError::DecodeFailed,
            },
    {
        HttpRequest::decode(&message.message)
    }
}

impl HttpResponse {
    /// Encodes the envelope under the bus framing.
    pub fn encode(&self) -> (out: Vec<u8>)
        requires
            spec_response_wf(self@),
        ensures
            out@ == spec_enc_response(self@),
    {
        let mut out: Vec<u8> = Vec::new();
        out.push((self.status % 256) as u8);
        out.push((self.status / 256) as u8);
        enc_headers(&mut out, &self.headers);
        push_le32(&mut out, self.body.len() as u32);
        push_bytes(&mut out, &self.body);
        proof {
            assert(out@ =~= spec_enc_response(self@));
        }
        out
    }

    /// Decodes an envelope from the bus framing.
    pub fn decode(bytes: &Vec<u8>) -> (r: Result<Self, TriggerError>)
        ensures
            match r {
                Result::Ok(resp) => spec_dec_response(bytes@) == Option::Some(resp@),
                Result::Err(e) => spec_dec_response(bytes@) is None && e
                    === TriggerError::DecodeFailed,
            },
    {
        if bytes.len() < 2 {
            return Result::Err(TriggerError::DecodeFailed);
        }
        let status: u16 = bytes[0] as u16 + 256 * (bytes[1] as u16);
        let (headers, p1) = match dec_headers(bytes, 2) {
            Option::None => {
                return Result::Err(TriggerError::DecodeFailed);
            },
            Option::Some(x) => x,
        };
        let (body, p2) = match dec_bytes(bytes, p1) {
            Option::None => {
                return Result::Err(TriggerError::DecodeFailed);
            },
            Option::Some(x) => x,
        };
        if p2 != bytes.len() {
            return Result::Err(TriggerError::DecodeFailed);
        }
        Result::Ok(HttpResponse { headers, status, body })
    }

    /// The messages a handler publishes to answer a request that arrived
    /// under `subject`: the encoded response, addressed to the paired
    /// response subject.
    pub fn to_response(&self, subject: &str) -> (r: Vec<OutputMessage>)
        requires
            spec_response_wf(self@),
        ensures
            r@.len() == 1,
            r@[0]@.message == spec_enc_response(self@),
            r@[0]@.broker is None,
            r@[0]@.response_subject is None,
            r@[0]@.subject == Option::Some(spec_response_subject_for(subject@)),
    {
        proof {
            reveal_strlit("request.");
            reveal_strlit("response.");
        }
        let body = self.encode();
        let reply_subject: String = if str_starts_with(subject, "request.") {
            let n = subject.unicode_len();
            let mut s = String::from_str("response.");
            s.append(subject.substring_char(8, n));
            s
        } else {
            subject.to_owned()
        };
        let mut out: Vec<OutputMessage> = Vec::new();
        out.push(
            OutputMessage {
                message: body,
                subject: Option::Some(reply_subject),
                broker: Option::None,
                response_subject: Option::None,
            },
        );
        out
    }
}

/// The subject a response to `subject` is published under: the leading
/// `request.` becomes `response.`; any other subject echoes back as it is.
pub open spec fn spec_response_subject_for(subject: Seq<char>) -> Seq<char> {
    if subject.len() >= 8 && subject.subrange(0, 8) == "request."@ {
        "response."@ + subject.skip(8)
    } else {
        subject
    }
}

} // verus!
