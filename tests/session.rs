use serde_json::Value;
use session_ui::codec::encode_u64;
use session_ui::session::{
    decimal_text,
    mount_data_from, ActionKey, RawEvent, RootUi, TakeDataError, TakeMountEventError,
};

fn path(segments: &[&str]) -> Vec<String> {
    segments.iter().map(|s| s.to_string()).collect()
}

fn json(text: &str) -> Value {
    serde_json::from_str(text).unwrap()
}

fn root(segments: &[&str], data: Value) -> RootUi {
    RootUi::from_event(RawEvent::new(path(segments), data))
}

#[test]
fn take_data_succeeds_exactly_once() {
    let seven = encode_u64(7);
    let mut client = root(&["main", &seven], json("{\"a\":1}")).get_client();
    let key = client.ui().scope(7u64).event_key::<Value>();
    assert_eq!(key.get_dynamic_symbols(), path(&["main", &seven]));
    assert_eq!(key.take_data(&mut client).ok(), Some(json("{\"a\":1}")));
    assert!(matches!(key.take_data(&mut client), Err(TakeDataError::DataAlreadyTaken)));
    let again = client.ui().scope(7u64).event_key::<Value>();
    assert!(matches!(again.take_data(&mut client), Err(TakeDataError::DataAlreadyTaken)));
}

#[test]
fn take_data_differing_segment_keeps_data() {
    let mut client = root(&["main", &encode_u64(7)], Value::from(5)).get_client();
    let wrong = client.ui().scope(8u64).event_key::<Value>();
    match wrong.take_data(&mut client) {
        Err(TakeDataError::DifferingEventPaths { existing, incomming }) => {
            assert_eq!(existing, path(&["main", &encode_u64(8)]));
            assert_eq!(incomming, path(&["main", &encode_u64(7)]));
        }
        _ => panic!("expected differing paths"),
    }
    let right = client.ui().scope(7u64).event_key::<Value>();
    assert_eq!(right.take_data(&mut client).ok(), Some(Value::from(5)));
}

#[test]
fn take_data_differing_length_keeps_data() {
    let mut client = root(&["main"], Value::from(1)).get_client();
    let deeper = client.ui().scope(1u64).event_key::<Value>();
    assert!(matches!(
        deeper.take_data(&mut client),
        Err(TakeDataError::DifferingEventPaths { .. })
    ));
    assert!(client.into_root().has_event_data());
}

#[test]
fn scope_leaves_parent_unchanged() {
    let client = root(&["main"], Value::Null).get_client();
    let ui = client.ui();
    let a = ui.scope(1u64);
    let b = ui.scope(2u64);
    assert_eq!(ui.event_key::<Value>().get_dynamic_symbols(), path(&["main"]));
    assert_eq!(a.event_key::<Value>().get_dynamic_symbols(), path(&["main", &encode_u64(1)]));
    assert_eq!(b.event_key::<Value>().get_dynamic_symbols(), path(&["main", &encode_u64(2)]));
    let nested = a.scope(3u64).event_key::<Value>();
    assert_eq!(nested.get_dynamic_symbols().len(), 3);
}

#[test]
fn mount_event_with_token() {
    let mut r = root(&["root_app_ready"], json("{\"token\":\"abc\"}"));
    let payload = r.take_mount_event().ok().unwrap().unwrap();
    assert!(!r.has_event_data());
    let token = payload.get("token").and_then(|t| t.as_str()).map(|t| t.to_string());
    let data = mount_data_from(Ok(token)).ok().unwrap();
    assert_eq!(data.token, Some("abc".to_string()));
}

#[test]
fn mount_event_other_path_keeps_data() {
    let mut r = root(&["other"], json("{\"token\":\"abc\"}"));
    assert!(matches!(r.take_mount_event(), Ok(None)));
    assert!(r.has_event_data());
}

#[test]
fn mount_event_empty_path() {
    let mut r = root(&[], Value::Null);
    assert!(matches!(r.take_mount_event(), Err(TakeMountEventError::EmptyEventPath)));
    assert!(r.has_event_data());
}

#[test]
fn mount_event_without_data() {
    let mut r = root(&["root_app_ready"], Value::Null);
    assert!(r.take_mount_event().is_ok());
    assert!(matches!(r.take_mount_event(), Err(TakeMountEventError::NoEventData)));
}

#[test]
fn mount_data_decode_failure() {
    match mount_data_from(Err("bad".to_string())) {
        Err(TakeMountEventError::FailedToDeserializeMountData { serde_error }) => {
            assert_eq!(serde_error, "bad")
        }
        _ => panic!("expected a mount data error"),
    }
}

#[test]
fn set_root_ui_twice_appends() {
    let mut r = root(&["main"], Value::Null);
    r.set_root_ui(Value::from("first"));
    r.set_root_ui(Value::from("second"));
    let actions = r.into_response().into_actions();
    assert_eq!(actions.len(), 2);
    assert_eq!(actions[0].action_path(), path(&["root_mount"]));
    assert_eq!(actions[1].action_path(), path(&["root_mount"]));
    assert_eq!(actions[0].data(), &Value::from("first"));
    assert_eq!(actions[1].data(), &Value::from("second"));
    assert_eq!(actions[1].debug_symbol(), None);
}

#[test]
fn emit_appends_each_call() {
    let mut client = root(&["main"], Value::Null).get_client();
    let key = ActionKey::<u64>::create().with_debug_symbol("count".to_string());
    assert_eq!(key.action_path().len(), 1);
    assert!(key.action_path()[0].parse::<u64>().is_ok());
    key.emit(Value::from(1), &mut client);
    key.emit(Value::from(2), &mut client);
    let actions = client.into_root().into_response().into_actions();
    assert_eq!(actions.len(), 2);
    assert_eq!(actions[0].action_path(), key.action_path());
    assert_eq!(actions[0].debug_symbol(), Some("count".to_string()));
    assert_eq!(actions[0].data(), &Value::from(1));
    assert_eq!(actions[1].data(), &Value::from(2));
}

#[test]
fn action_key_create_is_unscoped() {
    let key = ActionKey::<Value>::create();
    assert_eq!(key.action_path().len(), 1);
    assert_eq!(key.debug_symbol(), None);
}

#[test]
fn decimal_text_and_from_number() {
    assert_eq!(decimal_text(0), "0");
    assert_eq!(decimal_text(9), "9");
    assert_eq!(decimal_text(10), "10");
    assert_eq!(decimal_text(1234567890), "1234567890");
    assert_eq!(decimal_text(u64::MAX), u64::MAX.to_string());
    let key = ActionKey::<Value>::from_number(42);
    assert_eq!(key.action_path(), vec!["42".to_string()]);
    assert_eq!(key.debug_symbol(), None);
}

#[test]
fn create_path_is_decimal_number() {
    let key = ActionKey::<Value>::create();
    let segment = &key.action_path()[0];
    let n: u64 = segment.parse().unwrap();
    assert_eq!(&n.to_string(), segment);
}
