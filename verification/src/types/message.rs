use vstd::prelude::*;
use crate::json::{fits, lemma_fits_deeper, member, well_formed, Json, Value};
use crate::number::{int_text, is_number, lemma_int_text, Number};
use crate::parse::MAX_DEPTH;
use crate::payloads::{
    lemma_lookup_slot, lemma_members_nested, lemma_members_well_formed, object_of, slots_of,
    well_formed_slots, wire_value, Field, Slot,
};
use crate::types::{absent, integer_in, read_i32, read_i64, read_text, text_in, Wire};

verus! {

/// A point on the map.
pub struct Location {
    /// Longitude as defined by sender
    pub longitude: Number,
    /// Latitude as defined by sender
    pub latitude: Number,
}

/// A [`Location`] as a mathematical value: the two literals.
pub struct LocationView {
    pub longitude: Seq<char>,
    pub latitude: Seq<char>,
}

impl View for Location {
    type V = LocationView;

    open spec fn view(&self) -> LocationView {
        LocationView { longitude: self.longitude@, latitude: self.latitude@ }
    }
}

/// The fields of a location on the wire.
pub open spec fn location_slots(l: LocationView) -> Seq<Slot> {
    seq![
        Slot { key: "longitude"@, value: Some(Value::Number(l.longitude)), required: true },
        Slot { key: "latitude"@, value: Some(Value::Number(l.latitude)), required: true },
    ]
}

/// The JSON form of a location.
pub open spec fn location_value(l: LocationView) -> Value {
    wire_value(location_slots(l))
}

/// The location that a JSON value stands for: an object with a number
/// under each of the two names.
pub open spec fn location_of(v: Value) -> Option<LocationView> {
    match (member(v, "longitude"@), member(v, "latitude"@)) {
        (Some(Value::Number(longitude)), Some(Value::Number(latitude))) => Some(
            LocationView { longitude, latitude },
        ),
        _ => None,
    }
}

/// Whether the two coordinates are number literals.
pub open spec fn valid_location(l: LocationView) -> bool {
    is_number(l.longitude) && is_number(l.latitude)
}

/// The JSON form of a location stands for that location.
pub proof fn lemma_location(l: LocationView)
    ensures
        location_value(l) is Object,
        location_of(location_value(l)) == Some(l),
        fits(location_value(l), 1),
        valid_location(l) ==> well_formed(location_value(l)),
{
    reveal_strlit("longitude");
    reveal_strlit("latitude");
    let slots = location_slots(l);
    assert(slots[0].key.len() == 9);
    assert(slots[1].key.len() == 8);
    lemma_lookup_slot(slots, 0);
    lemma_lookup_slot(slots, 1);
    lemma_members_nested(slots, 0);
    if valid_location(l) {
        lemma_members_well_formed(slots);
    }
}

impl Location {
    /// The JSON form of this location.
    pub fn to_json(&self) -> (j: Json)
        ensures
            j@ == location_value(self@),
            valid_location(self@),
    {
        let mut f: Vec<Field> = Vec::new();
        f.push(Field::required("longitude", Json::Number(self.longitude.clone())));
        f.push(Field::required("latitude", Json::Number(self.latitude.clone())));
        assert(slots_of(f@) =~= location_slots(self@));
        object_of(f)
    }

    /// The location that `j` stands for.
    pub fn from_json(j: &Json) -> (r: Option<Location>)
        ensures
            match r {
                Some(l) => location_of(j@) == Some(l@),
                None => location_of(j@) is None,
            },
    {
        match (j.get("longitude"), j.get("latitude")) {
            (Some(Json::Number(longitude)), Some(Json::Number(latitude))) => Some(
                Location { longitude: longitude.clone(), latitude: latitude.clone() },
            ),
            _ => None,
        }
    }
}

/// The chat that a message belongs to.
pub struct Chat {
    /// Unique identifier for this chat
    pub id: i64,
    /// Username, for private chats, supergroups and channels if available
    pub username: Option<String>,
}

/// A [`Chat`] as a mathematical value.
pub struct ChatView {
    pub id: int,
    pub username: Option<Seq<char>>,
}

impl View for Chat {
    type V = ChatView;

    open spec fn view(&self) -> ChatView {
        ChatView {
            id: self.id as int,
            username: match self.username {
                Some(name) => Some(name@),
                None => None,
            },
        }
    }
}

/// The fields of a chat on the wire.
pub open spec fn chat_slots(c: ChatView) -> Seq<Slot> {
    seq![
        Slot { key: "id"@, value: Some(Value::Number(int_text(c.id))), required: true },
        Slot {
            key: "username"@,
            value: match c.username {
                Some(name) => Some(Value::Text(name)),
                None => None,
            },
            required: false,
        },
    ]
}

/// The JSON form of a chat.
pub open spec fn chat_value(c: ChatView) -> Value {
    wire_value(chat_slots(c))
}

/// The chat that a JSON value stands for: an object with an identifier
/// that fits 64 bits and, if it has a username at all, a string for it.
pub open spec fn chat_of(v: Value) -> Option<ChatView> {
    match integer_in(member(v, "id"@), i64::MIN as int, i64::MAX as int) {
        Some(id) => {
            let username = member(v, "username"@);
            if absent(username) {
                Some(ChatView { id, username: None })
            } else {
                match text_in(username) {
                    Some(name) => Some(ChatView { id, username: Some(name) }),
                    None => None,
                }
            }
        },
        None => None,
    }
}

/// Whether the identifier fits 64 bits.
pub open spec fn valid_chat(c: ChatView) -> bool {
    i64::MIN <= c.id <= i64::MAX
}

/// The JSON form of a chat stands for that chat.
pub proof fn lemma_chat(c: ChatView)
    requires
        valid_chat(c),
    ensures
        chat_value(c) is Object,
        chat_of(chat_value(c)) == Some(c),
        fits(chat_value(c), 1),
        well_formed(chat_value(c)),
{
    reveal_strlit("id");
    reveal_strlit("username");
    let slots = chat_slots(c);
    assert(slots[0].key.len() == 2);
    assert(slots[1].key.len() == 8);
    lemma_lookup_slot(slots, 0);
    lemma_lookup_slot(slots, 1);
    lemma_int_text(c.id);
    lemma_members_nested(slots, 0);
    lemma_members_well_formed(slots);
}

impl Chat {
    /// The JSON form of this chat.
    pub fn to_json(&self) -> (j: Json)
        ensures
            j@ == chat_value(self@),
            valid_chat(self@),
    {
        let mut f: Vec<Field> = Vec::new();
        f.push(Field::required("id", Json::Number(Number::from_i64(self.id))));
        f.push(
            Field::optional(
                "username",
                match &self.username {
                    Some(name) => Some(Json::Text(name.clone())),
                    None => None,
                },
            ),
        );
        assert(slots_of(f@) =~= chat_slots(self@));
        object_of(f)
    }

    /// The chat that `j` stands for.
    pub fn from_json(j: &Json) -> (r: Option<Chat>)
        ensures
            match r {
                Some(c) => chat_of(j@) == Some(c@),
                None => chat_of(j@) is None,
            },
    {
        let id = match read_i64(j.get("id")) {
            Some(id) => id,
            None => {
                return None;
            },
        };
        match j.get("username") {
            None => Some(Chat { id, username: None }),
            Some(Json::Null) => Some(Chat { id, username: None }),
            Some(other) => match read_text(Some(other)) {
                Some(name) => Some(Chat { id, username: Some(name) }),
                None => None,
            },
        }
    }
}

/// A message, as far as a reply to a location edit tells of it.
pub struct Message {
    /// Unique message identifier inside this chat
    pub id: i32,
    /// Date the message was sent in Unix time
    pub date: i32,
    /// Conversation the message belongs to
    pub chat: Chat,
    /// The location that the message shares, if it shares one
    pub location: Option<Location>,
}

/// A [`Message`] as a mathematical value.
pub struct MessageView {
    pub id: int,
    pub date: int,
    pub chat: ChatView,
    pub location: Option<LocationView>,
}

impl View for Message {
    type V = MessageView;

    open spec fn view(&self) -> MessageView {
        MessageView {
            id: self.id as int,
            date: self.date as int,
            chat: self.chat@,
            location: match self.location {
                Some(l) => Some(l@),
                None => None,
            },
        }
    }
}

/// The fields of a message on the wire.
pub open spec fn message_slots(m: MessageView) -> Seq<Slot> {
    seq![
        Slot { key: "message_id"@, value: Some(Value::Number(int_text(m.id))), required: true },
        Slot { key: "date"@, value: Some(Value::Number(int_text(m.date))), required: true },
        Slot { key: "chat"@, value: Some(chat_value(m.chat)), required: true },
        Slot {
            key: "location"@,
            value: match m.location {
                Some(l) => Some(location_value(l)),
                None => None,
            },
            required: false,
        },
    ]
}

/// The JSON form of a message.
pub open spec fn message_value(m: MessageView) -> Value {
    wire_value(message_slots(m))
}

/// The message that a JSON value stands for: an object with an identifier
/// and a date that fit 32 bits, a chat and, if it has a location at all, a
/// location. What else the object holds is passed over.
pub open spec fn message_of(v: Value) -> Option<MessageView> {
    match (
        integer_in(member(v, "message_id"@), i32::MIN as int, i32::MAX as int),
        integer_in(member(v, "date"@), i32::MIN as int, i32::MAX as int),
        member(v, "chat"@),
    ) {
        (Some(id), Some(date), Some(chat_json)) => match chat_of(chat_json) {
            Some(chat) => {
                let location = member(v, "location"@);
                if absent(location) {
                    Some(MessageView { id, date, chat, location: None })
                } else {
                    match location_of(location->0) {
                        Some(l) => Some(MessageView { id, date, chat, location: Some(l) }),
                        None => None,
                    }
                }
            },
            None => None,
        },
        _ => None,
    }
}

/// Whether every part of the message is in the range of its type.
pub open spec fn valid_message(m: MessageView) -> bool {
    &&& i32::MIN <= m.id <= i32::MAX
    &&& i32::MIN <= m.date <= i32::MAX
    &&& valid_chat(m.chat)
    &&& m.location matches Some(l) ==> valid_location(l)
}

/// The fields of a message have four names.
pub proof fn lemma_message_slots(m: MessageView)
    ensures
        well_formed_slots(message_slots(m)),
{
    reveal_strlit("message_id");
    reveal_strlit("date");
    reveal_strlit("chat");
    reveal_strlit("location");
    let slots = message_slots(m);
    assert(slots[0].key.len() == 10);
    assert(slots[1].key.len() == 4);
    assert(slots[2].key.len() == 4);
    assert(slots[3].key.len() == 8);
    assert(slots[1].key[0] != slots[2].key[0]);
}

impl Wire for Message {
    open spec fn valid(x: MessageView) -> bool {
        valid_message(x)
    }

    open spec fn encoded(x: MessageView) -> Value {
        message_value(x)
    }

    open spec fn decoded(v: Value) -> Option<MessageView> {
        message_of(v)
    }

    proof fn lemma_wire(x: MessageView) {
        let slots = message_slots(x);
        lemma_message_slots(x);
        lemma_lookup_slot(slots, 0);
        lemma_lookup_slot(slots, 1);
        lemma_lookup_slot(slots, 2);
        lemma_lookup_slot(slots, 3);
        lemma_int_text(x.id);
        lemma_int_text(x.date);
        lemma_chat(x.chat);
        match x.location {
            Some(l) => {
                lemma_location(l);
            },
            None => {},
        }
        lemma_members_nested(slots, 1);
        lemma_members_well_formed(slots);
        lemma_fits_deeper(message_value(x), 2, (MAX_DEPTH - 1) as nat);
    }

    fn to_json(&self) -> (j: Json)
        ensures
            j@ == message_value(self@),
            valid_message(self@),
    {
        let mut f: Vec<Field> = Vec::new();
        f.push(Field::required("message_id", Json::Number(Number::from_i64(self.id as i64))));
        f.push(Field::required("date", Json::Number(Number::from_i64(self.date as i64))));
        f.push(Field::required("chat", self.chat.to_json()));
        f.push(
            Field::optional(
                "location",
                match &self.location {
                    Some(l) => Some(l.to_json()),
                    None => None,
                },
            ),
        );
        assert(slots_of(f@) =~= message_slots(self@));
        object_of(f)
    }

    fn from_json(j: &Json) -> (r: Option<Message>)
        ensures
            match r {
                Some(m) => message_of(j@) == Some(m@),
                None => message_of(j@) is None,
            },
    {
        let id = match read_i32(j.get("message_id")) {
            Some(id) => id,
            None => {
                return None;
            },
        };
        let date = match read_i32(j.get("date")) {
            Some(date) => date,
            None => {
                return None;
            },
        };
        let chat = match j.get("chat") {
            Some(chat_json) => match Chat::from_json(chat_json) {
                Some(chat) => chat,
                None => {
                    return None;
                },
            },
            None => {
                return None;
            },
        };
        match j.get("location") {
            None => Some(Message { id, date, chat, location: None }),
            Some(Json::Null) => Some(Message { id, date, chat, location: None }),
            Some(other) => match Location::from_json(other) {
                Some(l) => Some(Message { id, date, chat, location: Some(l) }),
                None => None,
            },
        }
    }
}

} // verus!
