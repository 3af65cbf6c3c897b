//! Subject construction: response-subject defaulting, request/response
//! correlation subjects, path escaping, and the MQTT subject mapping.

use vstd::prelude::*;

verus! {

use vstd::string::{StrSliceExecFns, StringExecFns};
use crate::errors::TriggerError;
use crate::messages::{OutputMessage, OutputMessageView};
use crate::strutil::str_starts_with;

/// The conventional reply subject for `subject`: when it begins with
/// `request`, that prefix replaced by `response`; otherwise absent.
pub open spec fn spec_default_response_subject(subject: Seq<char>) -> Option<Seq<char>> {
    if subject.len() >= 7 && subject.subrange(0, 7) == "request"@ {
        Option::Some("response"@ + subject.skip(7))
    } else {
        Option::None
    }
}

/// The reply subject a broker fills into inbound messages when the transport
/// carries none itself.
pub fn default_message_response_subject(subject: &str) -> (r: Option<String>)
    ensures
        match r {
            Option::Some(s) => spec_default_response_subject(subject@) == Option::Some(s@),
            Option::None => spec_default_response_subject(subject@) is None,
        },
{
    proof {
        reveal_strlit("request");
    }
    if str_starts_with(subject, "request") {
        let mut r = String::from_str("response");
        let n = subject.unicode_len();
        r.append(subject.substring_char(7, n));
        Option::Some(r)
    } else {
        Option::None
    }
}

/// How one path character appears inside a subject: `.` is spelled out,
/// `/` becomes the subject separator, everything else stands.
pub open spec fn spec_escape_char(c: char) -> Seq<char> {
    if c == '.' {
        "_DOT_"@
    } else if c == '/' {
        "."@
    } else {
        seq![c]
    }
}

/// A URL path rendered as a subject segment: `.` becomes `_DOT_`, then `/`
/// becomes `.`.
pub open spec fn spec_escape_path(s: Seq<char>) -> Seq<char>
    decreases s.len(),
{
    if s.len() == 0 {
        Seq::empty()
    } else {
        spec_escape_char(s[0]) + spec_escape_path(s.drop_first())
    }
}

proof fn lemma_escape_path_push(s: Seq<char>, c: char)
    ensures
        spec_escape_path(s.push(c)) == spec_escape_path(s) + spec_escape_char(c),
    decreases s.len(),
{
    reveal_with_fuel(spec_escape_path, 3);
    if s.len() == 0 {
        assert(s.push(c).drop_first() =~= Seq::<char>::empty());
        assert(s.push(c)[0] == c);
        assert(spec_escape_path(s.push(c)) =~= spec_escape_path(s) + spec_escape_char(c));
    } else {
        assert(s.push(c).drop_first() =~= s.drop_first().push(c));
        lemma_escape_path_push(s.drop_first(), c);
        assert(spec_escape_path(s.push(c)) =~= spec_escape_path(s) + spec_escape_char(c));
    }
}

/// Escapes a URL path for use inside a subject.
pub fn escape_path(path: &str) -> (r: String)
    ensures
        r@ == spec_escape_path(path@),
{
    let n = path.unicode_len();
    let mut r = String::new();
    let mut i: usize = 0;
    while i < n
        invariant
            n == path@.len(),
            i <= n,
            r@ == spec_escape_path(path@.subrange(0, i as int)),
        decreases n - i,
    {
        let c = path.get_char(i);
        if c == '.' {
            r.append("_DOT_");
        } else if c == '/' {
            r.append(".");
        } else {
            r.append(path.substring_char(i, i + 1));
            proof {
                assert(path@.subrange(i as int, i + 1 as int) =~= seq![path@[i as int]]);
            }
        }
        proof {
            lemma_escape_path_push(path@.subrange(0, i as int), path@[i as int]);
            assert(path@.subrange(0, i as int).push(path@[i as int]) =~= path@.subrange(
                0,
                i + 1 as int,
            ));
        }
        i += 1;
    }
    proof {
        assert(path@.subrange(0, n as int) =~= path@);
    }
    r
}

/// The topic pattern a handler subscribes to in order to serve requests for
/// `path` under `method` (`*` when no method is pinned).
pub open spec fn spec_request_subscription(path: Seq<char>, method: Option<Seq<char>>) -> Seq<
    char,
> {
    "request.*."@ + (match method {
        Option::Some(m) => m,
        Option::None => "*"@,
    }) + "."@ + spec_escape_path(path)
}

/// Builds the request subscription pattern for a path and optional method.
pub fn generate_request_subscription(path: &str, method: &Option<String>) -> (r: String)
    ensures
        r@ == spec_request_subscription(path@, crate::messages::opt_str_view(*method)),
{
    let mut r = String::from_str("request.*.");
    match method {
        Option::Some(m) => r.append(m.as_str()),
        Option::None => r.append("*"),
    }
    r.append(".");
    let escaped = escape_path(path);
    r.append(escaped.as_str());
    r
}

/// Characters a ULID is written with: Crockford base32 digits and upper-case
/// letters.
pub open spec fn is_ulid_char(c: char) -> bool {
    (('0' as u32) <= (c as u32) && (c as u32) <= ('9' as u32)) || (('A' as u32) <= (c as u32) && (c
        as u32) <= ('Z' as u32))
}

/// Is `s` shaped like a rendered ULID?
pub open spec fn spec_is_ulid(s: Seq<char>) -> bool {
    s.len() == 26 && forall|i: int| 0 <= i < s.len() ==> is_ulid_char(#[trigger] s[i])
}

/// Relies on `ulid::Ulid::new` and its `Display` impl: a ULID renders as
/// exactly 26 characters of the Crockford base32 alphabet (digits and
/// upper-case letters only).
#[verifier::external_body]
fn new_ulid_string() -> (r: String)
    ensures
        spec_is_ulid(r@),
{
    ulid::Ulid::new().to_string()
}

/// The paired correlation subjects for a request carrying `subject` under
/// correlation id `id`.
pub open spec fn spec_correlation_request(id: Seq<char>, subject: Seq<char>) -> Seq<char> {
    "request."@ + id + "."@ + subject
}

/// The reply-side twin of [`spec_correlation_request`].
pub open spec fn spec_correlation_response(id: Seq<char>, subject: Seq<char>) -> Seq<char> {
    "response."@ + id + "."@ + subject
}

fn correlation_subjects(id: &str, subject: &str) -> (r: (String, String))
    ensures
        r.0@ == spec_correlation_request(id@, subject@),
        r.1@ == spec_correlation_response(id@, subject@),
{
    let mut req = String::from_str("request.");
    req.append(id);
    req.append(".");
    req.append(subject);
    let mut resp = String::from_str("response.");
    resp.append(id);
    resp.append(".");
    resp.append(subject);
    (req, resp)
}

/// The request subject the gateway publishes an HTTP request under, given a
/// correlation id, a method name and an escaped path.
pub open spec fn spec_http_request_subject(id: Seq<char>, method: Seq<char>, path: Seq<char>) -> Seq<
    char,
> {
    "request."@ + id + "."@ + method + "."@ + spec_escape_path(path)
}

/// The response subject paired with [`spec_http_request_subject`].
pub open spec fn spec_http_response_subject(id: Seq<char>, method: Seq<char>, path: Seq<char>) -> Seq<
    char,
> {
    "response."@ + id + "."@ + method + "."@ + spec_escape_path(path)
}

/// Mints the paired subjects for one gateway request: a fresh correlation id
/// under `request.` and `response.` prefixes, the method, and the escaped
/// path.
pub fn generate_http_request_subjects(path: &str, method: &str) -> (r: (String, String))
    ensures
        exists|id: Seq<char>|
            #[trigger] spec_is_ulid(id) && r.0@ == spec_http_request_subject(id, method@, path@)
                && r.1@ == spec_http_response_subject(id, method@, path@),
{
    let id = new_ulid_string();
    let escaped = escape_path(path);
    let mut req = String::from_str("request.");
    req.append(id.as_str());
    req.append(".");
    req.append(method);
    req.append(".");
    req.append(escaped.as_str());
    let mut resp = String::from_str("response.");
    resp.append(id.as_str());
    resp.append(".");
    resp.append(method);
    resp.append(".");
    resp.append(escaped.as_str());
    proof {
        assert(spec_is_ulid(id@) && req@ == spec_http_request_subject(id@, method@, path@)
            && resp@ == spec_http_response_subject(id@, method@, path@));
    }
    (req, resp)
}

/// What the correlator does to a request before publishing it: a request
/// that already carries a reply subject passes unchanged; one without gets a
/// fresh correlation id woven into both subjects; one without a subject at
/// all is refused.
pub open spec fn spec_prepared_request(
    m: OutputMessageView,
    id: Seq<char>,
    subject: Seq<char>,
) -> OutputMessageView {
    OutputMessageView {
        message: m.message,
        subject: Option::Some(spec_correlation_request(id, subject)),
        broker: m.broker,
        response_subject: Option::Some(spec_correlation_response(id, subject)),
    }
}

/// Step one of the request correlator: fixes the subject pair the request
/// will travel under, and returns the subject the reply must be awaited on.
pub fn prepare_request(message: OutputMessage) -> (r: Result<(OutputMessage, String), TriggerError>)
    ensures
        message@.subject is None <==> r === Result::Err(TriggerError::NoSubject),
        (match (message@.subject, message@.response_subject) {
            (Option::Some(_), Option::Some(rs)) => r matches Result::Ok((p, s)) && p@ == message@
                && s@ == rs,
            (Option::Some(subj), Option::None) => r matches Result::Ok((p, s))
                && exists|id: Seq<char>|
                #[trigger] spec_is_ulid(id) && p@ == spec_prepared_request(message@, id, subj)
                    && s@ == spec_correlation_response(id, subj),
            (Option::None, _) => true,
        }),
{
    let OutputMessage { message: body, subject, broker, response_subject } = message;
    match subject {
        Option::None => Result::Err(TriggerError::NoSubject),
        Option::Some(subj) => {
            match response_subject {
                Option::Some(rs) => {
                    let out = OutputMessage {
                        message: body,
                        subject: Option::Some(subj),
                        broker,
                        response_subject: Option::Some(rs.clone()),
                    };
                    Result::Ok((out, rs))
                },
                Option::None => {
                    let id = new_ulid_string();
                    let (req, resp) = correlation_subjects(id.as_str(), subj.as_str());
                    let resp_copy = resp.clone();
                    let out = OutputMessage {
                        message: body,
                        subject: Option::Some(req),
                        broker,
                        response_subject: Option::Some(resp),
                    };
                    proof {
                        assert(spec_is_ulid(id@) && out@ == spec_prepared_request(
                            message@,
                            id@,
                            subj@,
                        ) && resp_copy@ == spec_correlation_response(id@, subj@));
                    }
                    Result::Ok((out, resp_copy))
                },
            }
        },
    }
}

/// One subject character as MQTT spells it: `.` separators become `/`,
/// `*` wildcards become `+`.
pub open spec fn spec_to_mqtt_char(c: char) -> char {
    if c == '.' {
        '/'
    } else if c == '*' {
        '+'
    } else {
        c
    }
}

/// A whole subject in MQTT spelling.
pub open spec fn spec_to_mqtt(s: Seq<char>) -> Seq<char> {
    Seq::new(s.len(), |i: int| spec_to_mqtt_char(s[i]))
}

/// The reverse spelling, applied to inbound MQTT topics.
pub open spec fn spec_from_mqtt_char(c: char) -> char {
    if c == '/' {
        '.'
    } else if c == '+' {
        '*'
    } else {
        c
    }
}

/// A whole MQTT topic in subject spelling.
pub open spec fn spec_from_mqtt(s: Seq<char>) -> Seq<char> {
    Seq::new(s.len(), |i: int| spec_from_mqtt_char(s[i]))
}

fn map_chars_mqtt(s: &str, to_mqtt: bool) -> (r: String)
    ensures
        to_mqtt ==> r@ == spec_to_mqtt(s@),
        !to_mqtt ==> r@ == spec_from_mqtt(s@),
{
    let n = s.unicode_len();
    let mut r = String::new();
    let mut i: usize = 0;
    while i < n
        invariant
            n == s@.len(),
            i <= n,
            to_mqtt ==> r@ =~= spec_to_mqtt(s@).subrange(0, i as int),
            !to_mqtt ==> r@ =~= spec_from_mqtt(s@).subrange(0, i as int),
        decreases n - i,
    {
        let c = s.get_char(i);
        if to_mqtt {
            if c == '.' {
                r.append("/");
                proof {
                    reveal_strlit("/");
                }
            } else if c == '*' {
                r.append("+");
                proof {
                    reveal_strlit("+");
                }
            } else {
                r.append(s.substring_char(i, i + 1));
            }
        } else {
            if c == '/' {
                r.append(".");
                proof {
                    reveal_strlit(".");
                }
            } else if c == '+' {
                r.append("*");
                proof {
                    reveal_strlit("*");
                }
            } else {
                r.append(s.substring_char(i, i + 1));
            }
        }
        proof {
            assert(s@.subrange(i as int, i + 1 as int) =~= seq![s@[i as int]]);
            if to_mqtt {
                assert(r@ =~= spec_to_mqtt(s@).subrange(0, i + 1 as int));
            } else {
                assert(r@ =~= spec_from_mqtt(s@).subrange(0, i + 1 as int));
            }
        }
        i += 1;
    }
    proof {
        assert(spec_to_mqtt(s@).subrange(0, n as int) =~= spec_to_mqtt(s@));
        assert(spec_from_mqtt(s@).subrange(0, n as int) =~= spec_from_mqtt(s@));
    }
    r
}

/// A subject in the spelling the MQTT transport expects.
pub fn to_mqtt_subject(subject: &str) -> (r: String)
    ensures
        r@ == spec_to_mqtt(subject@),
{
    map_chars_mqtt(subject, true)
}

/// An inbound MQTT topic in the runtime's subject spelling.
pub fn from_mqtt_subject(topic: &str) -> (r: String)
    ensures
        r@ == spec_from_mqtt(topic@),
{
    map_chars_mqtt(topic, false)
}

/// The MQTT subject mapping is invertible on subjects, which never contain
/// the MQTT-only characters `/` and `+`.
pub proof fn lemma_mqtt_mapping_invertible(s: Seq<char>)
    requires
        forall|i: int| 0 <= i < s.len() ==> s[i] != '/' && s[i] != '+',
    ensures
        spec_from_mqtt(spec_to_mqtt(s)) == s,
{
    assert(spec_from_mqtt(spec_to_mqtt(s)) =~= s);
}

/// The shared-subscription topic MQTT uses for a queue group.
pub open spec fn spec_mqtt_shared_subscription(group: Seq<char>, topic: Seq<char>) -> Seq<char> {
    "$share/"@ + group + "/"@ + topic
}

/// Builds the `$share/{group}/{topic}` form of a queue subscription.
pub fn mqtt_shared_subscription(group: &str, topic: &str) -> (r: String)
    ensures
        r@ == spec_mqtt_shared_subscription(group@, topic@),
{
    let mut r = String::from_str("$share/");
    r.append(group);
    r.append("/");
    r.append(topic);
    r
}

} // verus!
