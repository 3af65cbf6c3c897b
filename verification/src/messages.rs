//! The canonical message shapes that travel between brokers, handlers and the
//! gateway, together with their mathematical models.

use vstd::prelude::*;

verus! {

/// Model of an optional string as an optional character sequence.
pub open spec fn opt_str_view(o: Option<String>) -> Option<Seq<char>> {
    match o {
        Option::Some(s) => Option::Some(s@),
        Option::None => Option::None,
    }
}

/// Model of an inbound message: what a broker hands to a subscriber.
#[verifier::ext_equal]
pub ghost struct InputMessageView {
    pub message: Seq<u8>,
    pub subject: Seq<char>,
    pub broker: Seq<char>,
    pub response_subject: Option<Seq<char>>,
}

/// A message received from a broker. `subject` is the concrete subject it was
/// published under, `broker` the name of the broker that produced it, and
/// `response_subject`, when present, the subject a reply should go to.
#[derive(Debug)]
pub struct InputMessage {
    pub message: Vec<u8>,
    pub subject: String,
    pub broker: String,
    pub response_subject: Option<String>,
}

impl View for InputMessage {
    type V = InputMessageView;

    open spec fn view(&self) -> InputMessageView {
        InputMessageView {
            message: self.message@,
            subject: self.subject@,
            broker: self.broker@,
            response_subject: opt_str_view(self.response_subject),
        }
    }
}

/// Model of an outbound message: what a handler emits.
#[verifier::ext_equal]
pub ghost struct OutputMessageView {
    pub message: Seq<u8>,
    pub subject: Option<Seq<char>>,
    pub broker: Option<Seq<char>>,
    pub response_subject: Option<Seq<char>>,
}

/// A message a handler asks to publish. An absent `subject` or `broker` is
/// filled in by the dispatch loop before the message reaches a broker.
#[derive(Debug)]
pub struct OutputMessage {
    pub message: Vec<u8>,
    pub subject: Option<String>,
    pub broker: Option<String>,
    pub response_subject: Option<String>,
}

impl View for OutputMessage {
    type V = OutputMessageView;

    open spec fn view(&self) -> OutputMessageView {
        OutputMessageView {
            message: self.message@,
            subject: opt_str_view(self.subject),
            broker: opt_str_view(self.broker),
            response_subject: opt_str_view(self.response_subject),
        }
    }
}

/// An error reported by a handler component.
pub struct MessageError(pub String);

/// The result of one handler invocation: either a batch of messages to
/// publish, or an error to log.
pub enum Outcome {
    Publish(Vec<OutputMessage>),
    Error(String),
}

fn clone_opt_string(o: &Option<String>) -> (r: Option<String>)
    ensures
        opt_str_view(r) == opt_str_view(*o),
{
    match o {
        Option::Some(s) => Option::Some(s.clone()),
        Option::None => Option::None,
    }
}

fn clone_bytes(v: &Vec<u8>) -> (r: Vec<u8>)
    ensures
        r@ == v@,
{
    let mut r: Vec<u8> = Vec::new();
    let mut i: usize = 0;
    while i < v.len()
        invariant
            i <= v.len(),
            r@ == v@.subrange(0, i as int),
        decreases v.len() - i,
    {
        r.push(v[i]);
        proof {
            assert(r@ =~= v@.subrange(0, i + 1 as int));
        }
        i += 1;
    }
    proof {
        assert(r@ =~= v@);
    }
    r
}

impl Clone for InputMessage {
    /// A clone carries the same model.
    fn clone(&self) -> (r: Self)
        ensures
            r@ == self@,
    {
        InputMessage {
            message: clone_bytes(&self.message),
            subject: self.subject.clone(),
            broker: self.broker.clone(),
            response_subject: clone_opt_string(&self.response_subject),
        }
    }
}

impl Clone for OutputMessage {
    /// A clone carries the same model.
    fn clone(&self) -> (r: Self)
        ensures
            r@ == self@,
    {
        OutputMessage {
            message: clone_bytes(&self.message),
            subject: clone_opt_string(&self.subject),
            broker: clone_opt_string(&self.broker),
            response_subject: clone_opt_string(&self.response_subject),
        }
    }
}

impl MessageError {
    /// The error rendered as text, in the shape handlers report it.
    pub fn text(&self) -> (r: String)
        ensures
            r@ == "Message Processing Error: "@ + self.0@,
    {
        let mut r = String::new();
        r.append("Message Processing Error: ");
        r.append(self.0.as_str());
        r
    }
}

impl Outcome {
    /// The outcome a handler's returned result becomes: the messages to
    /// publish, or the error rendered as text.
    pub fn from_result(value: Result<Vec<OutputMessage>, MessageError>) -> (r: Outcome)
        ensures
            match value {
                Result::Ok(v) => r matches Outcome::Publish(m) && m == v,
                Result::Err(e) => r matches Outcome::Error(s) && s@ == "Message Processing Error: "@
                    + e.0@,
            },
    {
        match value {
            Result::Ok(v) => Outcome::Publish(v),
            Result::Err(e) => Outcome::Error(e.text()),
        }
    }
}

impl Clone for MessageError {
    /// A clone carries the same text.
    fn clone(&self) -> (r: Self)
        ensures
            r.0@ == self.0@,
    {
        MessageError(self.0.clone())
    }
}

} // verus!
