//! The values that requests carry and replies bring back.

use vstd::prelude::*;
use crate::json::{fits, seen, well_formed, Json, Value};
use crate::number::{int_text, integer_of, Number};
use crate::parse::MAX_DEPTH;

pub mod message;

verus! {

/// The chat that a request is about: a numeric identifier, or the public
/// name of a channel in the form `@channelusername`.
pub enum ChatId {
    Id(i64),
    ChannelUsername(String),
}

/// A [`ChatId`] as a mathematical value.
pub enum ChatIdView {
    Id(int),
    ChannelUsername(Seq<char>),
}

impl View for ChatId {
    type V = ChatIdView;

    open spec fn view(&self) -> ChatIdView {
        match self {
            ChatId::Id(id) => ChatIdView::Id(*id as int),
            ChatId::ChannelUsername(name) => ChatIdView::ChannelUsername(name@),
        }
    }
}

/// How a chat stands on the wire: the identifier as a number, the channel
/// name as a string.
pub open spec fn chat_id_value(chat: ChatIdView) -> Value {
    match chat {
        ChatIdView::Id(id) => Value::Number(int_text(id)),
        ChatIdView::ChannelUsername(name) => Value::Text(name),
    }
}

impl From<i64> for ChatId {
    /// The chat with the identifier `id`.
    fn from(id: i64) -> (chat: ChatId)
        ensures
            chat == ChatId::Id(id),
    {
        ChatId::Id(id)
    }
}

impl vstd::std_specs::convert::FromSpecImpl<i64> for ChatId {
    open spec fn obeys_from_spec() -> bool {
        true
    }

    open spec fn from_spec(id: i64) -> ChatId {
        ChatId::Id(id)
    }
}

impl From<String> for ChatId {
    /// The channel with the public name `name`.
    fn from(name: String) -> (chat: ChatId)
        ensures
            chat == ChatId::ChannelUsername(name),
    {
        ChatId::ChannelUsername(name)
    }
}

impl vstd::std_specs::convert::FromSpecImpl<String> for ChatId {
    open spec fn obeys_from_spec() -> bool {
        true
    }

    open spec fn from_spec(name: String) -> ChatId {
        ChatId::ChannelUsername(name)
    }
}

impl ChatId {
    /// The wire value of this chat.
    pub fn to_json(&self) -> (j: Json)
        ensures
            j@ == chat_id_value(self@),
    {
        match self {
            ChatId::Id(id) => Json::Number(Number::from_i64(*id)),
            ChatId::ChannelUsername(name) => Json::Text(name.clone()),
        }
    }
}


/// The keyboard that goes with a message, carried as the JSON value that
/// describes it.
pub struct ReplyMarkup {
    pub json: Json,
}

impl View for ReplyMarkup {
    type V = Value;

    open spec fn view(&self) -> Value {
        self.json@
    }
}


/// A value that replies carry: it has a JSON form, and is read back from it.
pub trait Wire: View + Sized {
    /// What holds of every value of the type.
    spec fn valid(x: Self::V) -> bool;

    /// The JSON form of a value.
    spec fn encoded(x: Self::V) -> Value;

    /// The value that a JSON value stands for, if it stands for one.
    spec fn decoded(v: Value) -> Option<Self::V>;

    /// Nothing is lost on the wire: the JSON form of a value stands for that
    /// value. It holds well-formed numbers only and is nested less deep than
    /// a text that is read may be.
    proof fn lemma_wire(x: Self::V)
        requires
            Self::valid(x),
        ensures
            Self::decoded(Self::encoded(x)) == Some(x),
            well_formed(Self::encoded(x)),
            fits(Self::encoded(x), (MAX_DEPTH - 1) as nat),
    ;

    /// The JSON form of this value.
    fn to_json(&self) -> (j: Json)
        ensures
            j@ == Self::encoded(self@),
            Self::valid(self@),
    ;

    /// The value that `j` stands for: `Some` exactly when it stands for one.
    fn from_json(j: &Json) -> (r: Option<Self>)
        ensures
            match r {
                Some(x) => Self::decoded(j@) == Some(x@),
                None => Self::decoded(j@) is None,
            },
    ;
}

/// The success marker: the reply of a method that has nothing else to say.
/// On the wire it is `true`.
pub struct True;

impl View for True {
    type V = ();

    open spec fn view(&self) -> () {
        ()
    }
}

impl Wire for True {
    open spec fn valid(x: ()) -> bool {
        true
    }

    open spec fn encoded(x: ()) -> Value {
        Value::Bool(true)
    }

    open spec fn decoded(v: Value) -> Option<()> {
        if v == Value::Bool(true) {
            Some(())
        } else {
            None
        }
    }

    proof fn lemma_wire(x: ()) {
    }

    fn to_json(&self) -> (j: Json)
        ensures
            j@ == Value::Bool(true),
    {
        Json::Bool(true)
    }

    fn from_json(j: &Json) -> (r: Option<True>)
        ensures
            r is Some <==> j@ == Value::Bool(true),
    {
        match j {
            Json::Bool(b) => if *b {
                Some(True)
            } else {
                None
            },
            _ => None,
        }
    }
}

/// The integer between `low` and `high` that `v` stands for, if `v` is
/// there and is the decimal form of one.
pub open spec fn integer_in(v: Option<Value>, low: int, high: int) -> Option<int> {
    match v {
        Some(Value::Number(text)) => match integer_of(text) {
            Some(n) => if low <= n <= high {
                Some(n)
            } else {
                None
            },
            None => None,
        },
        _ => None,
    }
}

/// The string that `v` stands for, if `v` is there and is one.
pub open spec fn text_in(v: Option<Value>) -> Option<Seq<char>> {
    match v {
        Some(Value::Text(text)) => Some(text),
        _ => None,
    }
}

/// Whether an optional field has no value: it is not there, or it is `null`.
pub open spec fn absent(v: Option<Value>) -> bool {
    v is None || v == Some(Value::Null)
}

/// The `i64` that `j` stands for.
pub fn read_i64(j: Option<&Json>) -> (r: Option<i64>)
    ensures
        match r {
            Some(n) => integer_in(seen(j), i64::MIN as int, i64::MAX as int) == Some(n as int),
            None => integer_in(seen(j), i64::MIN as int, i64::MAX as int) is None,
        },
{
    match j {
        Some(Json::Number(n)) => n.as_i64(),
        _ => None,
    }
}

/// The `i32` that `j` stands for.
pub fn read_i32(j: Option<&Json>) -> (r: Option<i32>)
    ensures
        match r {
            Some(n) => integer_in(seen(j), i32::MIN as int, i32::MAX as int) == Some(n as int),
            None => integer_in(seen(j), i32::MIN as int, i32::MAX as int) is None,
        },
{
    match read_i64(j) {
        Some(n) => if -0x8000_0000 <= n && n <= 0x7fff_ffff {
            Some(n as i32)
        } else {
            None
        },
        None => None,
    }
}

/// The string that `j` stands for.
pub fn read_text(j: Option<&Json>) -> (r: Option<String>)
    ensures
        match r {
            Some(s) => text_in(seen(j)) == Some(s@),
            None => text_in(seen(j)) is None,
        },
{
    match j {
        Some(Json::Text(s)) => Some(s.clone()),
        _ => None,
    }
}

} // verus!
