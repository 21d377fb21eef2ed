//! Payloads: the arguments of one API method, and how they go on the wire.
//!
//! A payload is a list of named fields. A required field always has a
//! value; an optional one has a value only once it was set. On the wire the
//! payload is a JSON object that holds the fields that have a value, in
//! their order, and nothing for those that have none.

use vstd::prelude::*;
use vstd::string::StringExecFns;
use crate::json::{
    fits, lemma_lookup_push, lookup, value_text, well_formed, Entry, Json, Member, Value,
};
use crate::types::Wire;

pub mod delete_sticker_set;

verus! {

/// One field of a payload as a mathematical value.
pub struct Slot {
    pub key: Seq<char>,
    pub value: Option<Value>,
    pub required: bool,
}

/// One field of a payload: its name on the wire, its value if it has one,
/// and whether the method requires it.
pub struct Field {
    pub key: String,
    pub value: Option<Json>,
    pub required: bool,
}

impl View for Field {
    type V = Slot;

    open spec fn view(&self) -> Slot {
        Slot {
            key: self.key@,
            value: match self.value {
                Some(j) => Some(j@),
                None => None,
            },
            required: self.required,
        }
    }
}

impl Field {
    /// A field that the method requires.
    pub fn required(key: &str, value: Json) -> (f: Field)
        ensures
            f@ == (Slot { key: key@, value: Some(value@), required: true }),
    {
        Field { key: String::from_str(key), value: Some(value), required: true }
    }

    /// A field that the method takes only when it is needed.
    pub fn optional(key: &str, value: Option<Json>) -> (f: Field)
        ensures
            f@.key == key@,
            f@.required == false,
            f@.value == match value {
                Some(j) => Some(j@),
                None => None,
            },
    {
        Field { key: String::from_str(key), value, required: false }
    }
}

/// The views of a list of fields.
pub open spec fn slots_of(fields: Seq<Field>) -> Seq<Slot> {
    Seq::new(fields.len(), |i: int| fields[i]@)
}

/// The members that a list of fields puts on the wire: one for each field
/// that has a value, in order.
pub open spec fn members_of(slots: Seq<Slot>) -> Seq<Entry>
    decreases slots.len(),
{
    if slots.len() == 0 {
        Seq::empty()
    } else {
        let before = members_of(slots.drop_last());
        match slots.last().value {
            Some(value) => before.push(Entry { key: slots.last().key, value }),
            None => before,
        }
    }
}

/// The JSON object that a list of fields puts on the wire.
pub open spec fn wire_value(slots: Seq<Slot>) -> Value {
    Value::Object(members_of(slots))
}

/// The request body that a list of fields puts on the wire.
pub open spec fn wire_text(slots: Seq<Slot>) -> Seq<char> {
    value_text(wire_value(slots))
}

/// What holds of the fields of every payload: a required field has a
/// value, and no two fields share a name.
pub open spec fn well_formed_slots(slots: Seq<Slot>) -> bool {
    &&& forall|i: int| 0 <= i < slots.len() && (#[trigger] slots[i]).required ==> slots[i].value is Some
    &&& forall|i: int, j: int|
        0 <= i < slots.len() && 0 <= j < slots.len() && i != j ==> (#[trigger] slots[i]).key != (
        #[trigger] slots[j]).key
}

/// The keys of a list of members, in order.
pub open spec fn keys_of(members: Seq<Entry>) -> Seq<Seq<char>> {
    Seq::new(members.len(), |i: int| members[i].key)
}

/// The names of the required fields among `slots`, in order.
pub open spec fn required_keys(slots: Seq<Slot>) -> Seq<Seq<char>>
    decreases slots.len(),
{
    if slots.len() == 0 {
        Seq::empty()
    } else if slots.last().required {
        required_keys(slots.drop_last()).push(slots.last().key)
    } else {
        required_keys(slots.drop_last())
    }
}

/// Whether no optional field among `slots` has a value.
pub open spec fn only_required(slots: Seq<Slot>) -> bool {
    forall|i: int| 0 <= i < slots.len() && !(#[trigger] slots[i]).required ==> slots[i].value is None
}

/// A name that no field has is the key of no member on the wire.
pub proof fn lemma_lookup_absent(slots: Seq<Slot>, key: Seq<char>)
    requires
        forall|i: int| 0 <= i < slots.len() ==> (#[trigger] slots[i]).key != key,
    ensures
        lookup(members_of(slots), key) is None,
    decreases slots.len(),
{
    if slots.len() > 0 {
        let before = slots.drop_last();
        assert forall|i: int| 0 <= i < before.len() implies (#[trigger] before[i]).key != key by {
            assert(before[i] == slots[i]);
        }
        lemma_lookup_absent(before, key);
        match slots.last().value {
            Some(value) => {
                lemma_lookup_push(
                    members_of(before),
                    Entry { key: slots.last().key, value },
                    key,
                );
            },
            None => {},
        }
    }
}

/// Omit if absent: under the name of a field the wire holds exactly what
/// the field holds. A field that has a value stands under its name with
/// that value; a field that has none does not stand on the wire at all,
/// not even as `null`.
pub proof fn lemma_lookup_slot(slots: Seq<Slot>, i: int)
    requires
        well_formed_slots(slots),
        0 <= i < slots.len(),
    ensures
        lookup(members_of(slots), slots[i].key) == slots[i].value,
    decreases slots.len(),
{
    let before = slots.drop_last();
    let last = slots.last();
    let key = slots[i].key;
    assert forall|a: int| 0 <= a < before.len() implies (#[trigger] before[a]) == slots[a] by {}
    if i < slots.len() - 1 {
        assert(well_formed_slots(before)) by {
            assert forall|a: int, b: int|
                0 <= a < before.len() && 0 <= b < before.len() && a != b implies (
            #[trigger] before[a]).key != (#[trigger] before[b]).key by {
                assert(before[a] == slots[a] && before[b] == slots[b]);
            }
        }
        assert(before[i] == slots[i]);
        lemma_lookup_slot(before, i);
        assert(last == slots[slots.len() - 1]);
        assert(last.key != key);
    } else {
        assert forall|a: int| 0 <= a < before.len() implies (#[trigger] before[a]).key != key by {
            assert(before[a] == slots[a]);
        }
        lemma_lookup_absent(before, key);
    }
    match last.value {
        Some(value) => {
            lemma_lookup_push(members_of(before), Entry { key: last.key, value }, key);
        },
        None => {},
    }
}

/// With no optional field set, the wire holds the required fields and
/// nothing else: the keys of the object are the names of the required
/// fields, in order.
pub proof fn lemma_only_required(slots: Seq<Slot>)
    requires
        well_formed_slots(slots),
        only_required(slots),
    ensures
        keys_of(members_of(slots)) == required_keys(slots),
    decreases slots.len(),
{
    if slots.len() == 0 {
        assert(keys_of(members_of(slots)) =~= required_keys(slots));
    } else {
        let before = slots.drop_last();
        let last = slots.last();
        assert forall|a: int| 0 <= a < before.len() implies (#[trigger] before[a]) == slots[a] by {}
        assert(well_formed_slots(before)) by {
            assert forall|a: int, b: int|
                0 <= a < before.len() && 0 <= b < before.len() && a != b implies (
            #[trigger] before[a]).key != (#[trigger] before[b]).key by {
                assert(before[a] == slots[a] && before[b] == slots[b]);
            }
        }
        assert(only_required(before));
        lemma_only_required(before);
        assert(last == slots[slots.len() - 1]);
        match last.value {
            Some(value) => {
                assert(keys_of(members_of(slots)) =~= keys_of(members_of(before)).push(last.key));
            },
            None => {},
        }
    }
}

/// Whether every value among `slots` is nested at most `depth` deep.
pub open spec fn nested_slots(slots: Seq<Slot>, depth: nat) -> bool {
    forall|i: int|
        0 <= i < slots.len() && (#[trigger] slots[i]).value is Some ==> fits(
            slots[i].value->0,
            depth,
        )
}

/// Whether every value among `slots` holds well-formed numbers only.
pub open spec fn well_formed_values(slots: Seq<Slot>) -> bool {
    forall|i: int|
        0 <= i < slots.len() && (#[trigger] slots[i]).value is Some ==> well_formed(
            slots[i].value->0,
        )
}

/// The object on the wire is nested one deeper than its fields.
pub proof fn lemma_members_nested(slots: Seq<Slot>, depth: nat)
    requires
        nested_slots(slots, depth),
    ensures
        fits(wire_value(slots), depth + 1),
    decreases slots.len(),
{
    let members = members_of(slots);
    if slots.len() > 0 {
        let before = slots.drop_last();
        assert forall|a: int| 0 <= a < before.len() implies (#[trigger] before[a]) == slots[a] by {}
        assert(nested_slots(before, depth));
        lemma_members_nested(before, depth);
        assert(slots.last() == slots[slots.len() - 1]);
        let earlier = members_of(before);
        assert(fits(Value::Object(earlier), depth + 1));
        assert forall|i: int| 0 <= i < members.len() implies fits(
            (#[trigger] members[i]).value,
            depth,
        ) by {
            if i < earlier.len() {
                assert(members[i] == earlier[i]);
            }
        }
    }
}

/// The object on the wire holds well-formed numbers only where its fields
/// do.
pub proof fn lemma_members_well_formed(slots: Seq<Slot>)
    requires
        well_formed_values(slots),
    ensures
        well_formed(wire_value(slots)),
    decreases slots.len(),
{
    let members = members_of(slots);
    if slots.len() > 0 {
        let before = slots.drop_last();
        assert forall|a: int| 0 <= a < before.len() implies (#[trigger] before[a]) == slots[a] by {}
        assert(well_formed_values(before));
        lemma_members_well_formed(before);
        assert(slots.last() == slots[slots.len() - 1]);
        let earlier = members_of(before);
        assert(well_formed(Value::Object(earlier)));
        assert forall|i: int| 0 <= i < members.len() implies well_formed(
            (#[trigger] members[i]).value,
        ) by {
            if i < earlier.len() {
                assert(members[i] == earlier[i]);
            }
        }
    }
}

/// The typed arguments of one API method.
pub trait Payload {
    /// What the method replies with on success.
    type Output: Wire;

    /// The name of the method on the wire.
    spec fn name() -> Seq<char>;

    /// The fields of this payload, set or not, in the order of the wire.
    spec fn slots(&self) -> Seq<Slot>;

    /// The fields of a payload are well formed.
    proof fn lemma_slots(&self)
        ensures
            well_formed_slots(self.slots()),
    ;

    /// The name of the method on the wire.
    fn method_name() -> (s: &'static str)
        ensures
            s@ == Self::name(),
    ;

    /// The fields of this payload, set or not, in the order of the wire.
    fn fields(&self) -> (f: Vec<Field>)
        ensures
            slots_of(f@) == self.slots(),
    ;
}

/// The JSON object that holds the fields that have a value, in order.
pub fn object_of(fields: Vec<Field>) -> (j: Json)
    ensures
        j@ == wire_value(slots_of(fields@)),
{
    let ghost slots = slots_of(fields@);
    let mut members: Vec<Member> = Vec::new();
    proof {
        assert(slots.take(0) =~= Seq::<Slot>::empty());
        assert(Json::Object(members)@->Object_0 =~= Seq::<Entry>::empty());
    }
    for field in it: fields
        invariant
            it.seq() == fields@,
            slots == slots_of(fields@),
            Json::Object(members)@ == wire_value(slots.take(it.index() as int)),
    {
        proof {
            let i = it.index() as int;
            assert(slots.take(i + 1).drop_last() =~= slots.take(i));
            assert(slots.take(i + 1).last() == field@);
        }
        let ghost before = Json::Object(members)@->Object_0;
        let Field { key, value, required: _ } = field;
        match value {
            Some(json) => {
                members.push(Member { key, value: json });
                assert(Json::Object(members)@->Object_0 =~= before.push(
                    Entry { key: key@, value: json@ },
                ));
            },
            None => {},
        }
    }
    assert(slots.take(fields@.len() as int) =~= slots);
    Json::Object(members)
}

/// The JSON object that stands for `payload` on the wire.
pub fn to_json<P: Payload>(payload: &P) -> (j: Json)
    ensures
        j@ == wire_value(payload.slots()),
{
    object_of(payload.fields())
}

/// The request body that stands for `payload` on the wire.
pub fn serialize<P: Payload>(payload: &P) -> (text: String)
    ensures
        text@ == wire_text(payload.slots()),
        well_formed(wire_value(payload.slots())),
{
    to_json(payload).to_text()
}

} // verus!
