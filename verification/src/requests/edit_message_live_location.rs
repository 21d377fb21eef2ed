use vstd::prelude::*;
use crate::json::{member, Json, Value};
use crate::number::{int_text, Number};
use crate::payloads::{
    keys_of, lemma_lookup_slot, lemma_only_required, members_of, required_keys, slots_of,
    wire_value, Field, Payload, Slot,
};
use crate::types::message::Message;
use crate::types::{chat_id_value, ChatId, ChatIdView, ReplyMarkup};

verus! {

/// Edits a live location message. A location can be edited until its live
/// period expires or editing is explicitly disabled. On success the edited
/// message is returned.
pub struct EditMessageLiveLocation {
    /// Required if inline_message_id is not specified. Unique identifier for
    /// the target chat or username of the target channel (in the format
    /// @channelusername)
    chat_id: Option<ChatId>,
    /// Required if inline_message_id is not specified. Identifier of the
    /// message to edit
    message_id: Option<i32>,
    /// Required if chat_id and message_id are not specified. Identifier of
    /// the inline message
    inline_message_id: Option<String>,
    /// Latitude of new location
    latitude: Number,
    /// Longitude of new location
    longitude: Number,
    /// A JSON-serialized object for a new inline keyboard.
    reply_markup: Option<ReplyMarkup>,
}

/// An [`EditMessageLiveLocation`] as a mathematical value.
pub struct EditMessageLiveLocationView {
    pub chat_id: Option<ChatIdView>,
    pub message_id: Option<int>,
    pub inline_message_id: Option<Seq<char>>,
    pub latitude: Seq<char>,
    pub longitude: Seq<char>,
    pub reply_markup: Option<Value>,
}

impl View for EditMessageLiveLocation {
    type V = EditMessageLiveLocationView;

    closed spec fn view(&self) -> EditMessageLiveLocationView {
        EditMessageLiveLocationView {
            chat_id: match self.chat_id {
                Some(chat) => Some(chat@),
                None => None,
            },
            message_id: match self.message_id {
                Some(id) => Some(id as int),
                None => None,
            },
            inline_message_id: match self.inline_message_id {
                Some(id) => Some(id@),
                None => None,
            },
            latitude: self.latitude@,
            longitude: self.longitude@,
            reply_markup: match self.reply_markup {
                Some(markup) => Some(markup@),
                None => None,
            },
        }
    }
}

/// The fields of the method, in the order of the wire: the two coordinates
/// are required, the other four are optional.
pub open spec fn edit_message_live_location_slots(v: EditMessageLiveLocationView) -> Seq<Slot> {
    seq![
        Slot {
            key: "chat_id"@,
            value: match v.chat_id {
                Some(chat) => Some(chat_id_value(chat)),
                None => None,
            },
            required: false,
        },
        Slot {
            key: "message_id"@,
            value: match v.message_id {
                Some(id) => Some(Value::Number(int_text(id))),
                None => None,
            },
            required: false,
        },
        Slot {
            key: "inline_message_id"@,
            value: match v.inline_message_id {
                Some(id) => Some(Value::Text(id)),
                None => None,
            },
            required: false,
        },
        Slot { key: "latitude"@, value: Some(Value::Number(v.latitude)), required: true },
        Slot { key: "longitude"@, value: Some(Value::Number(v.longitude)), required: true },
        Slot { key: "reply_markup"@, value: v.reply_markup, required: false },
    ]
}

impl EditMessageLiveLocation {
    /// The request with its two required fields; every optional field is
    /// unset.
    pub fn new(latitude: Number, longitude: Number) -> (request: Self)
        ensures
            request@ == (EditMessageLiveLocationView {
                chat_id: None,
                message_id: None,
                inline_message_id: None,
                latitude: latitude@,
                longitude: longitude@,
                reply_markup: None,
            }),
            keys_of(members_of(request.slots())) == seq!["latitude"@, "longitude"@],
    {
        let request = Self {
            chat_id: None,
            message_id: None,
            inline_message_id: None,
            latitude,
            longitude,
            reply_markup: None,
        };
        proof {
            let slots = request.slots();
            request.lemma_slots();
            lemma_only_required(slots);
            reveal_with_fuel(required_keys, 7);
            let s5 = slots.drop_last();
            let s4 = s5.drop_last();
            let s3 = s4.drop_last();
            let s2 = s3.drop_last();
            let s1 = s2.drop_last();
            assert(s1.drop_last() =~= Seq::<Slot>::empty());
            assert(required_keys(slots) =~= seq!["latitude"@, "longitude"@]);
        }
        request
    }

    /// Sets the target chat.
    pub fn chat_id(self, value: ChatId) -> (request: Self)
        ensures
            request@ == (EditMessageLiveLocationView { chat_id: Some(value@), ..self@ }),
            member(wire_value(request.slots()), "chat_id"@) == Some(chat_id_value(value@)),
    {
        let mut request = self;
        request.chat_id = Some(value);
        proof {
            request.lemma_slots();
            lemma_lookup_slot(request.slots(), 0);
        }
        request
    }

    /// Sets the identifier of the message to edit.
    pub fn message_id(self, value: i32) -> (request: Self)
        ensures
            request@ == (EditMessageLiveLocationView { message_id: Some(value as int), ..self@ }),
            member(wire_value(request.slots()), "message_id"@) == Some(Value::Number(int_text(value as int))),
    {
        let mut request = self;
        request.message_id = Some(value);
        proof {
            request.lemma_slots();
            lemma_lookup_slot(request.slots(), 1);
        }
        request
    }

    /// Sets the identifier of the inline message.
    pub fn inline_message_id(self, value: String) -> (request: Self)
        ensures
            request@ == (EditMessageLiveLocationView { inline_message_id: Some(value@), ..self@ }),
            member(wire_value(request.slots()), "inline_message_id"@) == Some(Value::Text(value@)),
    {
        let mut request = self;
        request.inline_message_id = Some(value);
        proof {
            request.lemma_slots();
            lemma_lookup_slot(request.slots(), 2);
        }
        request
    }

    /// Sets the latitude of the new location.
    pub fn latitude(self, value: Number) -> (request: Self)
        ensures
            request@ == (EditMessageLiveLocationView { latitude: value@, ..self@ }),
            member(wire_value(request.slots()), "latitude"@) == Some(Value::Number(value@)),
    {
        let mut request = self;
        request.latitude = value;
        proof {
            request.lemma_slots();
            lemma_lookup_slot(request.slots(), 3);
        }
        request
    }

    /// Sets the longitude of the new location.
    pub fn longitude(self, value: Number) -> (request: Self)
        ensures
            request@ == (EditMessageLiveLocationView { longitude: value@, ..self@ }),
            member(wire_value(request.slots()), "longitude"@) == Some(Value::Number(value@)),
    {
        let mut request = self;
        request.longitude = value;
        proof {
            request.lemma_slots();
            lemma_lookup_slot(request.slots(), 4);
        }
        request
    }

    /// Sets the new inline keyboard.
    pub fn reply_markup(self, value: ReplyMarkup) -> (request: Self)
        ensures
            request@ == (EditMessageLiveLocationView { reply_markup: Some(value@), ..self@ }),
            member(wire_value(request.slots()), "reply_markup"@) == Some(value@),
    {
        let mut request = self;
        request.reply_markup = Some(value);
        proof {
            request.lemma_slots();
            lemma_lookup_slot(request.slots(), 5);
        }
        request
    }
}

impl Payload for EditMessageLiveLocation {
    type Output = Message;

    open spec fn name() -> Seq<char> {
        "editMessageLiveLocation"@
    }

    open spec fn slots(&self) -> Seq<Slot> {
        edit_message_live_location_slots(self@)
    }

    proof fn lemma_slots(&self) {
        reveal_strlit("chat_id");
        reveal_strlit("message_id");
        reveal_strlit("inline_message_id");
        reveal_strlit("latitude");
        reveal_strlit("longitude");
        reveal_strlit("reply_markup");
        let slots = self.slots();
        assert(slots[0].key.len() == 7);
        assert(slots[1].key.len() == 10);
        assert(slots[2].key.len() == 17);
        assert(slots[3].key.len() == 8);
        assert(slots[4].key.len() == 9);
        assert(slots[5].key.len() == 12);
    }

    fn method_name() -> (s: &'static str)
        ensures
            s@ == "editMessageLiveLocation"@,
    {
        "editMessageLiveLocation"
    }

    fn fields(&self) -> (f: Vec<Field>)
        ensures
            slots_of(f@) == edit_message_live_location_slots(self@),
    {
        let mut f: Vec<Field> = Vec::new();
        f.push(
            Field::optional(
                "chat_id",
                match &self.chat_id {
                    Some(chat) => Some(chat.to_json()),
                    None => None,
                },
            ),
        );
        f.push(
            Field::optional(
                "message_id",
                match self.message_id {
                    Some(id) => Some(Json::Number(Number::from_i64(id as i64))),
                    None => None,
                },
            ),
        );
        f.push(
            Field::optional(
                "inline_message_id",
                match &self.inline_message_id {
                    Some(id) => Some(Json::Text(id.clone())),
                    None => None,
                },
            ),
        );
        f.push(Field::required("latitude", Json::Number(self.latitude.clone())));
        f.push(Field::required("longitude", Json::Number(self.longitude.clone())));
        f.push(
            Field::optional(
                "reply_markup",
                match &self.reply_markup {
                    Some(markup) => Some(markup.json.duplicate()),
                    None => None,
                },
            ),
        );
        assert(slots_of(f@) =~= self.slots());
        f
    }
}

} // verus!
