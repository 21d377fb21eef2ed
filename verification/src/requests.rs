//! Requests: payloads on their way to the API and replies on their way back.
//!
//! A request is one exchange. [`prepare`] turns a payload into the one call
//! that is to be made, and [`finish`] turns what came of that call into the
//! typed result. Making the call is left to the caller.

use vstd::prelude::*;
use vstd::string::StringExecFns;
use crate::json::{fits, lookup, member, value_text, well_formed, Entry, Json, Member, Value};
use crate::parse::{parse, parse_text, MAX_DEPTH};
use crate::payloads::{serialize, wire_text, wire_value, Payload};
use crate::round_trip::lemma_parse_text;
use crate::types::{integer_in, read_i64, read_text, text_in, Wire};

pub mod edit_message_live_location;

verus! {

/// The one call that a request makes: the method to post to, and the body
/// to post.
pub struct HttpCall {
    pub method_name: String,
    pub body: String,
}

/// Why a request gave no result.
pub enum RequestError {
    /// The call itself failed; the transport's account of it.
    Network(String),
    /// The API refused the request.
    Api { error_code: i64, description: String },
    /// The reply is not what the method replies with; the reply as it came.
    InvalidJson(String),
}

/// What a reply says, as a mathematical value.
pub enum Reply<T> {
    /// The request succeeded, with this result.
    Success(T),
    /// The API refused the request.
    Failure { error_code: int, description: Seq<char> },
    /// The reply is neither.
    Malformed,
}

/// What the envelope of a reply says: an object whose `ok` is `true` and
/// which has a `result`, or one whose `ok` is `false` and which has an
/// `error_code` that fits 64 bits and a `description`.
pub open spec fn envelope_of(v: Value) -> Reply<Value> {
    match member(v, "ok"@) {
        Some(Value::Bool(ok)) => {
            if ok {
                match member(v, "result"@) {
                    Some(result) => Reply::Success(result),
                    None => Reply::Malformed,
                }
            } else {
                match (
                    integer_in(member(v, "error_code"@), i64::MIN as int, i64::MAX as int),
                    text_in(member(v, "description"@)),
                ) {
                    (Some(error_code), Some(description)) => Reply::Failure {
                        error_code,
                        description,
                    },
                    _ => Reply::Malformed,
                }
            }
        },
        _ => Reply::Malformed,
    }
}

/// What the text of a reply says to a method that replies with a `T`.
pub open spec fn reply_of<T: Wire>(text: Seq<char>) -> Reply<T::V> {
    match parse_text(text) {
        Some(v) => match envelope_of(v) {
            Reply::Success(result) => match T::decoded(result) {
                Some(x) => Reply::Success(x),
                None => Reply::Malformed,
            },
            Reply::Failure { error_code, description } => Reply::Failure {
                error_code,
                description,
            },
            Reply::Malformed => Reply::Malformed,
        },
        None => Reply::Malformed,
    }
}

/// The envelope of a success with this result.
pub open spec fn success_value(result: Value) -> Value {
    Value::Object(
        seq![
            Entry { key: "ok"@, value: Value::Bool(true) },
            Entry { key: "result"@, value: result },
        ],
    )
}

/// Reads a reply: the result on success, the API's refusal as it was given,
/// and the reply itself where it is neither.
pub fn interpret<T: Wire>(text: &str) -> (r: Result<T, RequestError>)
    ensures
        match r {
            Ok(x) => reply_of::<T>(text@) == Reply::Success(x@),
            Err(RequestError::Api { error_code, description }) => reply_of::<T>(text@) == (
            Reply::<T::V>::Failure { error_code: error_code as int, description: description@ }),
            Err(RequestError::InvalidJson(raw)) => reply_of::<T>(text@) is Malformed && raw@
                == text@,
            Err(RequestError::Network(_)) => false,
        },
{
    let json = match parse(text) {
        Some(json) => json,
        None => {
            return Err(RequestError::InvalidJson(text.to_owned()));
        },
    };
    match json.get("ok") {
        Some(Json::Bool(ok)) => {
            if *ok {
                match json.get("result") {
                    Some(result) => match T::from_json(result) {
                        Some(x) => Ok(x),
                        None => Err(RequestError::InvalidJson(text.to_owned())),
                    },
                    None => Err(RequestError::InvalidJson(text.to_owned())),
                }
            } else {
                match (read_i64(json.get("error_code")), read_text(json.get("description"))) {
                    (Some(error_code), Some(description)) => Err(
                        RequestError::Api { error_code, description },
                    ),
                    _ => Err(RequestError::InvalidJson(text.to_owned())),
                }
            }
        },
        _ => Err(RequestError::InvalidJson(text.to_owned())),
    }
}

/// The call that sends `payload`: its method, and its fields as the body.
pub fn prepare<P: Payload>(payload: P) -> (call: HttpCall)
    ensures
        call.method_name@ == P::name(),
        call.body@ == wire_text(payload.slots()),
        well_formed(wire_value(payload.slots())),
{
    HttpCall { method_name: String::from_str(P::method_name()), body: serialize(&payload) }
}

/// The result of a request, from what came of its call: the text of the
/// reply, or the transport's account of why there is none.
pub fn finish<P: Payload>(outcome: Result<String, String>) -> (r: Result<P::Output, RequestError>)
    ensures
        match outcome {
            Ok(text) => match r {
                Ok(x) => reply_of::<P::Output>(text@) == Reply::Success(x@),
                Err(RequestError::Api { error_code, description }) => reply_of::<P::Output>(text@)
                    == (Reply::<<P::Output as View>::V>::Failure {
                    error_code: error_code as int,
                    description: description@,
                }),
                Err(RequestError::InvalidJson(raw)) => reply_of::<P::Output>(text@) is Malformed
                    && raw@ == text@,
                Err(RequestError::Network(_)) => false,
            },
            Err(account) => r matches Err(RequestError::Network(kept)) && kept@ == account@,
        },
{
    match outcome {
        Ok(text) => interpret::<P::Output>(text.as_str()),
        Err(account) => Err(RequestError::Network(account)),
    }
}

/// The text of a reply that reports success with `result`.
pub fn success_text<T: Wire>(result: &T) -> (text: String)
    ensures
        text@ == value_text(success_value(T::encoded(result@))),
        T::valid(result@),
{
    let mut members: Vec<Member> = Vec::new();
    members.push(Member { key: String::from_str("ok"), value: Json::Bool(true) });
    members.push(Member { key: String::from_str("result"), value: result.to_json() });
    let ghost wanted = success_value(T::encoded(result@))->Object_0;
    assert(members@.len() == 2 && wanted.len() == 2);
    assert(members@[0].key@ == wanted[0].key && members@[0].value@ == wanted[0].value);
    assert(members@[1].key@ == wanted[1].key && members@[1].value@ == wanted[1].value);
    let envelope = Json::Object(members);
    assert(envelope@->Object_0 =~= wanted);
    envelope.to_text()
}

/// Nothing is lost on the way back: the reply that reports success with a
/// value is read as that value.
pub proof fn lemma_success_round_trip<T: Wire>(x: T::V)
    requires
        T::valid(x),
    ensures
        reply_of::<T>(value_text(success_value(T::encoded(x)))) == Reply::Success(x),
{
    let result = T::encoded(x);
    let envelope = success_value(result);
    T::lemma_wire(x);
    reveal_strlit("ok");
    reveal_strlit("result");
    let members = envelope->Object_0;
    assert(members[0].key != "result"@) by {
        assert(members[0].key.len() == 2);
        assert("result"@.len() == 6);
    }
    assert(members.drop_first()[0] == members[1]);
    assert(lookup(members.drop_first(), "result"@) == Some(result));
    assert(lookup(members, "result"@) == lookup(members.drop_first(), "result"@));
    assert(member(envelope, "ok"@) == Some(Value::Bool(true)));
    assert(member(envelope, "result"@) == Some(result));
    assert(well_formed(envelope)) by {
        assert forall|i: int| 0 <= i < members.len() implies well_formed(
            (#[trigger] members[i]).value,
        ) by {}
    }
    assert(fits(envelope, MAX_DEPTH as nat)) by {
        assert forall|i: int| 0 <= i < members.len() implies fits(
            (#[trigger] members[i]).value,
            (MAX_DEPTH - 1) as nat,
        ) by {}
    }
    lemma_parse_text(envelope);
}

} // verus!
