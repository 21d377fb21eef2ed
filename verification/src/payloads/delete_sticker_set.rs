use vstd::prelude::*;
use crate::json::{member, Json, Value};
use crate::payloads::{
    keys_of, lemma_lookup_slot, lemma_only_required, members_of, required_keys, slots_of,
    wire_value, Field, Payload, Slot,
};
use crate::types::True;

verus! {

/// Deletes a sticker set that the bot created. The reply is the success
/// marker.
pub struct DeleteStickerSet {
    /// Sticker set name
    pub name: String,
}

impl DeleteStickerSet {
    /// The payload with its one required field.
    pub fn new(name: String) -> (payload: DeleteStickerSet)
        ensures
            payload.name@ == name@,
            member(wire_value(payload.slots()), "name"@) == Some(Value::Text(name@)),
            keys_of(members_of(payload.slots())) == seq!["name"@],
    {
        let payload = DeleteStickerSet { name };
        proof {
            lemma_lookup_slot(payload.slots(), 0);
            lemma_only_required(payload.slots());
            reveal_with_fuel(required_keys, 2);
            assert(payload.slots().drop_last() =~= Seq::<Slot>::empty());
            assert(required_keys(payload.slots()) =~= seq!["name"@]);
        }
        payload
    }

    /// Sets the sticker set name.
    pub fn name(self, value: String) -> (payload: DeleteStickerSet)
        ensures
            payload.name@ == value@,
            member(wire_value(payload.slots()), "name"@) == Some(Value::Text(value@)),
    {
        let payload = DeleteStickerSet { name: value };
        proof {
            lemma_lookup_slot(payload.slots(), 0);
        }
        payload
    }
}

impl Payload for DeleteStickerSet {
    type Output = True;

    open spec fn name() -> Seq<char> {
        "deleteStickerSet"@
    }

    open spec fn slots(&self) -> Seq<Slot> {
        seq![Slot { key: "name"@, value: Some(Value::Text(self.name@)), required: true }]
    }

    proof fn lemma_slots(&self) {
    }

    fn method_name() -> (s: &'static str)
        ensures
            s@ == "deleteStickerSet"@,
    {
        "deleteStickerSet"
    }

    fn fields(&self) -> (f: Vec<Field>)
        ensures
            slots_of(f@) == seq![
                Slot { key: "name"@, value: Some(Value::Text(self.name@)), required: true },
            ],
    {
        let mut f: Vec<Field> = Vec::new();
        f.push(Field::required("name", Json::Text(self.name.clone())));
        assert(slots_of(f@) =~= self.slots());
        f
    }
}

} // verus!
