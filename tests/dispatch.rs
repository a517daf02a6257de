use serde_json::Value;
use session_ui::dispatch::{dispatch_outcomes, error_action, request_failure, Dispatch, RequestError};
use session_ui::session::{ActionKey, RawEvent, RootUi, UiResponse};

fn path(segments: &[&str]) -> Vec<String> {
    segments.iter().map(|s| s.to_string()).collect()
}

fn response_with(key: &ActionKey<Value>, values: &[i64]) -> UiResponse {
    let mut client = RootUi::from_event(RawEvent::new(path(&["main"]), Value::Null)).get_client();
    for v in values {
        key.emit(Value::from(*v), &mut client);
    }
    client.into_root().into_response()
}

#[test]
fn dispatch_keeps_order_and_isolates_failure() {
    let key = ActionKey::<Value>::create();
    let outcomes = vec![
        Ok(response_with(&key, &[1, 2])),
        Err("boom".to_string()),
        Ok(response_with(&key, &[3])),
    ];
    let actions = dispatch_outcomes(outcomes);
    assert_eq!(actions.len(), 4);
    assert_eq!(actions[0].data(), &Value::from(1));
    assert_eq!(actions[1].data(), &Value::from(2));
    assert_eq!(actions[2].action_path(), path(&["root_error"]));
    assert_eq!(actions[2].data(), &Value::from("boom"));
    assert_eq!(actions[3].data(), &Value::from(3));
    assert_eq!(actions[3].action_path(), key.action_path());
}

#[test]
fn dispatch_state_records_in_turn() {
    let key = ActionKey::<Value>::create();
    let mut d = Dispatch::new();
    d.record(Err("first".to_string()));
    d.record(Ok(response_with(&key, &[])));
    d.record(Ok(response_with(&key, &[9])));
    let actions = d.into_actions();
    assert_eq!(actions.len(), 2);
    assert_eq!(actions[0].data(), &Value::from("first"));
    assert_eq!(actions[1].data(), &Value::from(9));
}

#[test]
fn malformed_request_yields_single_error() {
    let error = RequestError { serde_error: "missing field `events`".to_string() };
    assert_eq!(error.message(), "Invalid request body. missing field `events`");
    let actions = request_failure(&error);
    assert_eq!(actions.len(), 1);
    assert_eq!(actions[0].action_path(), path(&["root_error"]));
    assert_eq!(actions[0].data(), &Value::from("Invalid request body. missing field `events`"));
}

#[test]
fn error_action_carries_text() {
    let a = error_action("oops".to_string());
    assert_eq!(a.action_path(), path(&["root_error"]));
    assert_eq!(a.debug_symbol(), None);
    assert_eq!(a.data(), &Value::String("oops".to_string()));
}

#[test]
fn empty_request_gives_empty_response() {
    assert!(dispatch_outcomes(vec![]).is_empty());
}
