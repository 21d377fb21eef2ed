use botwire::json::Json;
use botwire::number::Number;
use botwire::parse::parse;
use botwire::payloads::delete_sticker_set::DeleteStickerSet;
use botwire::payloads::{serialize, to_json, Payload};
use botwire::requests::edit_message_live_location::EditMessageLiveLocation;
use botwire::requests::{finish, interpret, prepare, success_text, RequestError};
use botwire::types::message::{Chat, Location, Message};
use botwire::types::{ChatId, ReplyMarkup, True, Wire};

fn number(text: &str) -> Number {
    Number::parse(text).unwrap()
}

fn keys(json: &Json) -> Vec<String> {
    match json {
        Json::Object(members) => members.iter().map(|m| m.key.clone()).collect(),
        _ => panic!("not an object"),
    }
}

#[test]
fn delete_sticker_set_goes_out_and_comes_back() {
    let payload = DeleteStickerSet::new("stickers_bot".to_string());
    let call = prepare(payload);
    assert_eq!(call.method_name, "deleteStickerSet");
    assert_eq!(call.body, "{\"name\":\"stickers_bot\"}");
    let result = finish::<DeleteStickerSet>(Ok("{\"ok\":true,\"result\":true}".to_string()));
    assert!(matches!(result, Ok(True)));
}

#[test]
fn delete_sticker_set_name_can_be_replaced() {
    let payload = DeleteStickerSet::new("first".to_string()).name("second \"set\"".to_string());
    assert_eq!(serialize(&payload), "{\"name\":\"second \\\"set\\\"\"}");
}

#[test]
fn edit_message_live_location_with_a_chat() {
    let request = EditMessageLiveLocation::new(number("1.0"), number("2.0")).chat_id(ChatId::Id(42));
    let json = to_json(&request);
    assert_eq!(keys(&json), ["chat_id", "latitude", "longitude"]);
    assert!(json.get("chat_id").is_some());
    assert!(json.get("latitude").is_some());
    assert!(json.get("longitude").is_some());
    assert!(json.get("message_id").is_none());
    assert!(json.get("inline_message_id").is_none());
    assert!(json.get("reply_markup").is_none());
    let call = prepare(request);
    assert_eq!(call.method_name, "editMessageLiveLocation");
    assert_eq!(call.body, "{\"chat_id\":42,\"latitude\":1.0,\"longitude\":2.0}");
}

#[test]
fn required_fields_only() {
    let request = EditMessageLiveLocation::new(number("55.7558"), number("37.6173"));
    assert_eq!(keys(&to_json(&request)), ["latitude", "longitude"]);
    assert_eq!(serialize(&request), "{\"latitude\":55.7558,\"longitude\":37.6173}");
    let fields = request.fields();
    assert_eq!(fields.len(), 6);
    for field in &fields {
        assert_eq!(field.required, field.value.is_some());
    }
}

#[test]
fn every_optional_field_goes_on_the_wire_once_set() {
    let markup = ReplyMarkup { json: parse("{\"inline_keyboard\":[]}").unwrap() };
    let request = EditMessageLiveLocation::new(number("0"), number("0"))
        .latitude(number("-1.5"))
        .longitude(number("2e1"))
        .chat_id(ChatId::ChannelUsername("@channel".to_string()))
        .message_id(-7)
        .inline_message_id("abc".to_string())
        .reply_markup(markup);
    assert_eq!(
        serialize(&request),
        "{\"chat_id\":\"@channel\",\"message_id\":-7,\"inline_message_id\":\"abc\",\
         \"latitude\":-1.5,\"longitude\":2e1,\"reply_markup\":{\"inline_keyboard\":[]}}"
    );
}

#[test]
fn a_setter_changes_one_field_only() {
    let before = EditMessageLiveLocation::new(number("1"), number("2")).message_id(5);
    let text_before = serialize(&before);
    let after = before.inline_message_id("x".to_string());
    assert_eq!(text_before, "{\"message_id\":5,\"latitude\":1,\"longitude\":2}");
    assert_eq!(
        serialize(&after),
        "{\"message_id\":5,\"inline_message_id\":\"x\",\"latitude\":1,\"longitude\":2}"
    );
}

#[test]
fn unset_fields_are_not_null() {
    let request = EditMessageLiveLocation::new(number("1.0"), number("2.0"));
    assert!(!serialize(&request).contains("null"));
}

#[test]
fn serializing_twice_gives_the_same_text() {
    let request = EditMessageLiveLocation::new(number("1.0"), number("2.0"))
        .chat_id(ChatId::Id(-1001234567890))
        .message_id(3);
    assert_eq!(serialize(&request), serialize(&request));
    let payload = DeleteStickerSet::new("s".to_string());
    assert_eq!(serialize(&payload), serialize(&payload));
}

#[test]
fn the_body_reads_back_as_the_payload_object() {
    let request = EditMessageLiveLocation::new(number("1.0"), number("2.0")).chat_id(ChatId::Id(42));
    let body = serialize(&request);
    assert_eq!(parse(&body).unwrap().to_text(), body);
    let theirs: serde_json::Value = serde_json::from_str(&body).unwrap();
    assert_eq!(theirs["chat_id"], serde_json::Value::from(42));
    assert_eq!(theirs["latitude"], serde_json::Value::from(1.0));
    assert_eq!(theirs["longitude"], serde_json::Value::from(2.0));
    assert_eq!(theirs.as_object().unwrap().len(), 3);
}

fn sample_message(location: Option<Location>, username: Option<String>) -> Message {
    Message { id: 17, date: 1_700_000_000, chat: Chat { id: -1001234567890, username }, location }
}

fn same(a: &Message, b: &Message) -> bool {
    a.to_json().to_text() == b.to_json().to_text()
}

#[test]
fn a_success_reply_reads_back_as_the_message() {
    let sent = sample_message(
        Some(Location { longitude: number("37.6173"), latitude: number("55.7558") }),
        Some("geo \"bot\"\n".to_string()),
    );
    let text = success_text(&sent);
    assert_eq!(
        text,
        "{\"ok\":true,\"result\":{\"message_id\":17,\"date\":1700000000,\
         \"chat\":{\"id\":-1001234567890,\"username\":\"geo \\\"bot\\\"\\n\"},\
         \"location\":{\"longitude\":37.6173,\"latitude\":55.7558}}}"
    );
    let got: Message = interpret(&text).ok().unwrap();
    assert_eq!(got.id, 17);
    assert_eq!(got.date, 1_700_000_000);
    assert_eq!(got.chat.id, -1001234567890);
    assert_eq!(got.chat.username.as_deref(), Some("geo \"bot\"\n"));
    let location = got.location.as_ref().unwrap();
    assert_eq!(location.longitude.as_str(), "37.6173");
    assert_eq!(location.latitude.as_str(), "55.7558");
    assert!(same(&sent, &got));
}

#[test]
fn a_success_reply_without_optional_parts_reads_back() {
    let sent = sample_message(None, None);
    let got = finish::<EditMessageLiveLocation>(Ok(success_text(&sent))).ok().unwrap();
    assert!(got.location.is_none());
    assert!(got.chat.username.is_none());
    assert!(same(&sent, &got));
    assert!(matches!(interpret::<True>(&success_text(&True)), Ok(True)));
}

#[test]
fn a_reply_may_hold_more_than_is_modelled() {
    let text = " { \"ok\" : true, \"result\" : { \"message_id\": 5, \"from\": {\"id\": 1, \"is_bot\": true},\
                \"chat\": {\"id\": 9, \"type\": \"private\", \"username\": null}, \"date\": 0,\
                \"location\": null, \"entities\": [ {\"offset\": 0.5} ], \"text\": \"\\u043f\\u0440\" } } ";
    let got: Message = interpret(text).ok().unwrap();
    assert_eq!((got.id, got.date, got.chat.id), (5, 0, 9));
    assert!(got.chat.username.is_none());
    assert!(got.location.is_none());
}

#[test]
fn an_api_refusal_is_reported_as_given() {
    let text = "{\"ok\":false,\"error_code\":400,\"description\":\"Bad Request: message can't be edited\"}";
    match interpret::<Message>(text) {
        Err(RequestError::Api { error_code, description }) => {
            assert_eq!(error_code, 400);
            assert_eq!(description, "Bad Request: message can't be edited");
        }
        _ => panic!("not a refusal"),
    }
}

#[test]
fn a_transport_failure_is_passed_through() {
    match finish::<DeleteStickerSet>(Err("connection reset".to_string())) {
        Err(RequestError::Network(account)) => assert_eq!(account, "connection reset"),
        _ => panic!("not a network error"),
    }
}

fn is_invalid<T: Wire>(text: &str) -> bool {
    match interpret::<T>(text) {
        Err(RequestError::InvalidJson(raw)) => raw == text,
        _ => false,
    }
}

#[test]
fn a_reply_of_another_shape_is_invalid() {
    assert!(is_invalid::<True>("not json"));
    assert!(is_invalid::<True>(""));
    assert!(is_invalid::<True>("true"));
    assert!(is_invalid::<True>("{}"));
    assert!(is_invalid::<True>("{\"ok\":1,\"result\":true}"));
    assert!(is_invalid::<True>("{\"ok\":true}"));
    assert!(is_invalid::<True>("{\"ok\":true,\"result\":false}"));
    assert!(is_invalid::<True>("{\"ok\":true,\"result\":1}"));
    assert!(is_invalid::<True>("{\"ok\":false}"));
    assert!(is_invalid::<True>("{\"ok\":false,\"error_code\":\"400\",\"description\":\"x\"}"));
    assert!(is_invalid::<True>("{\"ok\":false,\"error_code\":400}"));
    assert!(is_invalid::<True>("{\"ok\":false,\"error_code\":4.5,\"description\":\"x\"}"));
    assert!(is_invalid::<Message>("{\"ok\":true,\"result\":true}"));
    assert!(is_invalid::<Message>("{\"ok\":true,\"result\":{\"message_id\":1,\"date\":2}}"));
    assert!(is_invalid::<Message>(
        "{\"ok\":true,\"result\":{\"message_id\":2147483648,\"date\":2,\"chat\":{\"id\":1}}}"
    ));
    assert!(is_invalid::<Message>(
        "{\"ok\":true,\"result\":{\"message_id\":1,\"date\":2,\"chat\":{\"id\":1,\"username\":5}}}"
    ));
    assert!(is_invalid::<Message>(
        "{\"ok\":true,\"result\":{\"message_id\":1,\"date\":2,\"chat\":{\"id\":1},\"location\":{\"latitude\":1}}}"
    ));
}

#[test]
fn the_first_of_two_members_with_one_key_counts() {
    let json = parse("{\"a\":1,\"a\":2}").unwrap();
    assert_eq!(json.get("a").unwrap().to_text(), "1");
    assert!(json.get("b").is_none());
    assert!(parse("[1]").unwrap().get("a").is_none());
}

#[test]
fn chat_id_goes_on_the_wire_as_number_or_string() {
    assert_eq!(ChatId::Id(-5).to_json().to_text(), "-5");
    assert_eq!(ChatId::ChannelUsername("@c".to_string()).to_json().to_text(), "\"@c\"");
}

#[test]
fn a_chat_is_made_from_an_identifier_or_a_name() {
    assert!(matches!(ChatId::from(42), ChatId::Id(42)));
    match ChatId::from("@channel".to_string()) {
        ChatId::ChannelUsername(name) => assert_eq!(name, "@channel"),
        _ => panic!("not a channel"),
    }
}
