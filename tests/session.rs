use yewchat::envelope::{decode, decode_chat_message, encode, DecodeError, Envelope, MsgTypes};
use yewchat::session::{avatar_url, profile_of, shows_as_picture, Chat, Msg};

const AVATARS: &str = "https://avatars.dicebear.com/api/adventurer-neutral/";

fn users_frame() -> &'static str {
    r#"{"messageType":"users","dataArray":["alice","bob"]}"#
}

#[test]
fn users_frame_sets_roster() {
    let (mut chat, _) = Chat::create("carol");
    let out = chat.handle_frame(users_frame());
    assert!(out.changed);
    assert_eq!(out.error, None);
    let roster = chat.roster();
    assert_eq!(roster.len(), 2);
    assert_eq!(roster[0].name, "alice");
    assert_eq!(roster[0].avatar, format!("{}alice.svg", AVATARS));
    assert_eq!(roster[1].name, "bob");
    assert_eq!(roster[1].avatar, format!("{}bob.svg", AVATARS));
}

#[test]
fn submit_message_frame() {
    let (chat, _) = Chat::create("carol");
    let frame = chat.submit_message("hello");
    assert_eq!(frame, r#"{"messageType":"message","data":"hello","dataArray":null}"#);
    let e = decode(&frame).unwrap();
    assert_eq!(e.message_type, MsgTypes::Message);
    assert_eq!(e.data, Some("hello".to_string()));
    assert_eq!(e.data_array, None);
}

#[test]
fn submit_through_update_leaves_state() {
    let (mut chat, _) = Chat::create("carol");
    let out = chat.update(Msg::SubmitMessage("".to_string()));
    assert!(!out.changed);
    assert_eq!(
        out.send,
        Some(r#"{"messageType":"message","data":"","dataArray":null}"#.to_string())
    );
    assert!(chat.transcript().is_empty());
}

#[test]
fn message_frame_appends() {
    let (mut chat, _) = Chat::create("carol");
    let frame = r#"{"messageType":"message","data":"{\"from\":\"alice\",\"message\":\"hi\"}"}"#;
    let out = chat.handle_frame(frame);
    assert!(out.changed);
    assert_eq!(chat.transcript().len(), 1);
    assert_eq!(chat.transcript()[0].from, "alice");
    assert_eq!(chat.transcript()[0].message, "hi");
    let out = chat.update(Msg::HandleMsg(frame.to_string()));
    assert!(out.changed);
    assert_eq!(chat.transcript().len(), 2);
}

#[test]
fn message_not_json_is_dropped() {
    let (mut chat, _) = Chat::create("carol");
    let out = chat.handle_frame(r#"{"messageType":"message","data":"not json"}"#);
    assert!(!out.changed);
    assert_eq!(out.error, Some(DecodeError::Malformed));
    assert!(chat.transcript().is_empty());
}

#[test]
fn sender_missing_from_roster() {
    let (mut chat, _) = Chat::create("carol");
    chat.handle_frame(users_frame());
    chat.handle_frame(r#"{"messageType":"message","data":"{\"from\":\"dave\",\"message\":\"yo\"}"}"#);
    let from = chat.transcript()[0].from.clone();
    assert!(chat.find_profile(&from).is_none());
    let alice = "alice".to_string();
    assert_eq!(chat.find_profile(&alice).unwrap().name, "alice");
}

#[test]
fn roster_is_replaced_not_merged() {
    let (mut chat, _) = Chat::create("carol");
    chat.handle_frame(users_frame());
    chat.handle_frame(r#"{"messageType":"users","dataArray":["zed"]}"#);
    assert_eq!(chat.roster().len(), 1);
    assert_eq!(chat.roster()[0].name, "zed");
    chat.handle_frame(r#"{"messageType":"users","dataArray":[]}"#);
    assert!(chat.roster().is_empty());
}

#[test]
fn create_sends_register() {
    let (chat, frame) = Chat::create("carol");
    assert_eq!(frame, r#"{"messageType":"register","data":"carol","dataArray":null}"#);
    assert!(chat.roster().is_empty());
    assert!(chat.transcript().is_empty());
}

#[test]
fn register_frame_changes_nothing() {
    let (mut chat, _) = Chat::create("carol");
    let out = chat.handle_frame(r#"{"messageType":"register","data":"x"}"#);
    assert!(!out.changed);
    assert_eq!(out.error, None);
}

#[test]
fn round_trip_users() {
    let e = Envelope {
        message_type: MsgTypes::Users,
        data_array: Some(vec!["a \"q\"".to_string(), "tab\there".to_string(), "\u{1}".to_string()]),
        data: None,
    };
    let text = encode(&e);
    assert_eq!(
        text,
        r#"{"messageType":"users","data":null,"dataArray":["a \"q\"","tab\there","\u0001"]}"#
    );
    let back = decode(&text).unwrap();
    assert_eq!(back.message_type, MsgTypes::Users);
    assert_eq!(back.data_array, e.data_array);
    assert_eq!(back.data, None);
}

#[test]
fn round_trip_message_with_unicode() {
    let e = Envelope {
        message_type: MsgTypes::Message,
        data_array: None,
        data: Some("héllo \\ 💌\n".to_string()),
    };
    let back = decode(&encode(&e)).unwrap();
    assert_eq!(back.data, e.data);
    assert_eq!(back.data_array, None);
}

#[test]
fn decode_errors() {
    assert_eq!(decode("not json").err(), Some(DecodeError::Malformed));
    assert_eq!(decode("").err(), Some(DecodeError::Malformed));
    assert_eq!(decode(r#"{"messageType":"users","dataArray":["a"]} x"#).err(), Some(DecodeError::Malformed));
    assert_eq!(decode(r#"{"dataArray":["a"]}"#).err(), Some(DecodeError::MessageType));
    assert_eq!(decode(r#"{"messageType":"ping","data":"a"}"#).err(), Some(DecodeError::MessageType));
    assert_eq!(decode(r#"{"messageType":"Users","dataArray":["a"]}"#).err(), Some(DecodeError::MessageType));
    assert_eq!(decode(r#"{"messageType":"users"}"#).err(), Some(DecodeError::Payload));
    assert_eq!(decode(r#"{"messageType":"message","dataArray":null}"#).err(), Some(DecodeError::Payload));
    assert_eq!(decode(r#"{"messageType":"users","dataArray":"a"}"#).err(), Some(DecodeError::Payload));
}

#[test]
fn decode_accepts_whitespace_and_any_order() {
    let e = decode(" {\n \"dataArray\" : [ \"x\" , \"y\" ] ,\t\"messageType\":\"users\", \"data\": null } ").unwrap();
    assert_eq!(e.message_type, MsgTypes::Users);
    assert_eq!(e.data_array, Some(vec!["x".to_string(), "y".to_string()]));
}

#[test]
fn decode_unicode_escape() {
    let c = decode_chat_message(r#"{"message":"\u0041\u00e9\/","from":"b"}"#).unwrap();
    assert_eq!(c.message, "Aé/");
    assert_eq!(c.from, "b");
    assert_eq!(decode_chat_message(r#"{"from":"b","message":"\ud83d"}"#).err(), Some(DecodeError::Malformed));
    assert_eq!(decode_chat_message(r#"{"from":"b"}"#).err(), Some(DecodeError::Payload));
}

#[test]
fn avatar_is_function_of_name() {
    assert_eq!(avatar_url("alice"), avatar_url("alice"));
    assert_eq!(avatar_url("alice"), format!("{}alice.svg", AVATARS));
    let a = profile_of(&"bob".to_string());
    let b = profile_of(&"bob".to_string());
    assert_eq!(a.avatar, b.avatar);
    assert_ne!(avatar_url("alice"), avatar_url("bob"));
}

#[test]
fn picture_messages() {
    assert!(shows_as_picture("https://x/cat.gif"));
    assert!(!shows_as_picture("cat.gif!"));
    assert!(!shows_as_picture("gif"));
}

#[test]
fn decode_last_member_wins_and_others_pass() {
    let e = decode(r#"{"messageType":"users","dataArray":["a"],"extra":"x","dataArray":["b"]}"#).unwrap();
    assert_eq!(e.data_array, Some(vec!["b".to_string()]));
    let c = decode_chat_message(r#"{"from":"a","message":"m","sent":null}"#).unwrap();
    assert_eq!(c.message, "m");
}

#[test]
fn decode_surrogate_pair() {
    let c = decode_chat_message(r#"{"from":"b","message":"hi \ud83d\ude00!"}"#).unwrap();
    assert_eq!(c.message, "hi \u{1F600}!");
    assert_eq!(
        decode_chat_message(r#"{"from":"b","message":"\ud83d\u0041"}"#).err(),
        Some(DecodeError::Malformed)
    );
    assert_eq!(
        decode_chat_message(r#"{"from":"b","message":"\ude00"}"#).err(),
        Some(DecodeError::Malformed)
    );
}

#[test]
fn decode_passes_over_members_of_any_value() {
    let text = r#"{"id":-12.5e+3,"ok":true,"no":false,"meta":{"a":[1,{"b":null}],"c":"d"},"list":[],"messageType":"users","dataArray":["x"],"n":0}"#;
    let e = decode(text).unwrap();
    assert_eq!(e.message_type, MsgTypes::Users);
    assert_eq!(e.data_array, Some(vec!["x".to_string()]));
    let c = decode_chat_message(r#"{"from":"a","message":"m","ts":1700000000,"tags":[1,2]}"#).unwrap();
    assert_eq!(c.from, "a");
    assert_eq!(decode(r#"{"messageType":"users","dataArray":["x"],"n":01}"#).err(), Some(DecodeError::Malformed));
    assert_eq!(decode(r#"{"messageType":"users","dataArray":["x"],"n":tru}"#).err(), Some(DecodeError::Malformed));
    assert_eq!(decode(r#"{"messageType":"users","dataArray":["x"],"o":{"a" 1}}"#).err(), Some(DecodeError::Malformed));
    assert_eq!(decode(r#"{"messageType":"users","dataArray":[1]}"#).err(), Some(DecodeError::Payload));
    assert_eq!(decode(r#"{"messageType":7,"data":"a"}"#).err(), Some(DecodeError::MessageType));
}

#[test]
fn decode_bounds_nesting_of_passed_over_members() {
    let deep = format!(
        r#"{{"messageType":"users","dataArray":["x"],"o":{}1{}}}"#,
        "[".repeat(200),
        "]".repeat(200)
    );
    assert_eq!(decode(&deep).err(), Some(DecodeError::Malformed));
    let shallow = format!(
        r#"{{"messageType":"users","dataArray":["x"],"o":{}1{}}}"#,
        "[".repeat(20),
        "]".repeat(20)
    );
    assert_eq!(decode(&shallow).unwrap().data_array, Some(vec!["x".to_string()]));
}
