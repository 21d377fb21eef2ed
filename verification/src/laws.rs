//! What holds of every payload and of every reply.

use vstd::prelude::*;
use crate::json::{fits, member, value_text, well_formed, Value};
use crate::parse::{parse_text, MAX_DEPTH};
use crate::payloads::{
    keys_of, lemma_lookup_slot, lemma_only_required, members_of, only_required, required_keys,
    serialize, wire_text, wire_value, Payload,
};
use crate::requests::{lemma_success_round_trip, reply_of, success_value, Reply};
use crate::round_trip::lemma_parse_text;
use crate::types::Wire;

verus! {

/// A payload of which only the required fields are set goes on the wire as
/// an object whose keys are the names of the required fields, in order, and
/// no others.
pub proof fn law_required_fields_only<P: Payload>(payload: P)
    requires
        only_required(payload.slots()),
    ensures
        wire_value(payload.slots()) == Value::Object(members_of(payload.slots())),
        keys_of(members_of(payload.slots())) == required_keys(payload.slots()),
{
    payload.lemma_slots();
    lemma_only_required(payload.slots());
}

/// Under the name of each field of a payload the wire holds what the field
/// holds: the value that was set, or nothing at all where none was set. A
/// field that is not set is not on the wire, not even as `null`.
pub proof fn law_field_on_wire<P: Payload>(payload: P, i: int)
    requires
        0 <= i < payload.slots().len(),
    ensures
        member(wire_value(payload.slots()), payload.slots()[i].key) == payload.slots()[i].value,
{
    payload.lemma_slots();
    lemma_lookup_slot(payload.slots(), i);
}

/// Serializing is a function of the payload: whatever two calls on the
/// same payload return is the same text.
pub proof fn law_serialize_twice<P: Payload>(payload: P, first: String, second: String)
    requires
        call_ensures(serialize::<P>, (&payload,), first),
        call_ensures(serialize::<P>, (&payload,), second),
    ensures
        first@ == second@,
{
}

/// The body of a request is read back as the object that the payload puts
/// on the wire, where that object is nested no deeper than a text that is
/// read may be.
pub proof fn law_body_reads_back<P: Payload>(payload: P)
    requires
        well_formed(wire_value(payload.slots())),
        fits(wire_value(payload.slots()), MAX_DEPTH as nat),
    ensures
        parse_text(wire_text(payload.slots())) == Some(wire_value(payload.slots())),
{
    lemma_parse_text(wire_value(payload.slots()));
}

/// A reply that reports success with a value of the type that a method
/// replies with is read as that value, with nothing lost.
pub proof fn law_success_reads_back<P: Payload>(result: <P::Output as View>::V)
    requires
        <P::Output as Wire>::valid(result),
    ensures
        reply_of::<P::Output>(
            value_text(success_value(<P::Output as Wire>::encoded(result))),
        ) == Reply::Success(result),
{
    lemma_success_round_trip::<P::Output>(result);
}

} // verus!
