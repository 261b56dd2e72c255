use bitpart::error::BitpartError;
use bitpart::event::{get_event_content, get_ttl_duration_value, request_to_event, Client, Event, SerializedEvent};
use bitpart::json::{Json, JsonValue};

fn s(text: &str) -> Json {
    Json { value: JsonValue::Str(text.to_owned()), text: format!("\"{text}\"") }
}

fn b(v: bool) -> Json {
    Json { value: JsonValue::Bool(v), text: v.to_string() }
}

fn obj(members: Vec<(&str, Json)>) -> Json {
    let text = format!(
        "{{{}}}",
        members.iter().map(|(k, v)| format!("\"{k}\":{}", v.text)).collect::<Vec<_>>().join(",")
    );
    Json { value: JsonValue::Object(members.into_iter().map(|(k, v)| (k.to_owned(), v)).collect()), text }
}

fn interp(m: &str) -> BitpartError {
    BitpartError::Interpreter(m.to_owned())
}

fn request(payload: Json) -> SerializedEvent {
    SerializedEvent {
        id: "req".to_owned(),
        client: Client { bot_id: "b".to_owned(), channel_id: "c".to_owned(), user_id: "u".to_owned() },
        metadata: obj(vec![]),
        payload,
        step_limit: Some(10),
        callback_url: None,
    }
}

#[test]
fn content_is_read_by_type() {
    let m = obj(vec![("url", s("http://x")), ("text", s("hi")), ("payload", s("p"))]);
    assert_eq!(get_event_content("image", &m, false).unwrap(), "http://x");
    assert_eq!(get_event_content("text", &m, false).unwrap(), "hi");
    assert_eq!(get_event_content("payload", &m, false).unwrap(), "p");
    assert_eq!(get_event_content("regex", &m, false).unwrap(), "p");
    let t = obj(vec![("flow_id", s("f"))]);
    assert_eq!(get_event_content("flow_trigger", &t, true).unwrap(), t.text);
}

#[test]
fn missing_content_is_an_error() {
    let m = obj(vec![]);
    assert_eq!(get_event_content("url", &m, false).unwrap_err(), interp("no url content in event"));
    assert_eq!(get_event_content("payload", &m, false).unwrap_err(), interp("no payload content in event"));
    assert_eq!(get_event_content("text", &m, false).unwrap_err(), interp("no text content in event"));
    assert_eq!(get_event_content("regex", &m, false).unwrap_err(), interp("invalid payload for event type regex"));
    assert_eq!(
        get_event_content("flow_trigger", &m, false).unwrap_err(),
        interp("invalid content for event type flow_trigger: expect flow_id and optional step_id")
    );
    assert_eq!(get_event_content("video_call", &m, false).unwrap_err(), interp("video_call is not a valid content_type"));
}

#[test]
fn request_becomes_event() {
    let payload = obj(vec![
        ("content_type", s("text")),
        ("content", obj(vec![("text", s("hello"))])),
        ("secure", b(false)),
    ]);
    let e = request_to_event(request(payload), false).unwrap();
    assert_eq!(e.content_type, "text");
    assert_eq!(e.content_value, "hello");
    assert_eq!(e.step_limit, Some(10));
    assert!(!e.secure);
    assert_eq!(e.ttl_duration, None);
    assert_eq!(e.low_data_mode, None);
}

#[test]
fn request_without_content_type_is_refused() {
    let e = request_to_event(request(obj(vec![("content", obj(vec![]))])), false);
    assert_eq!(e.unwrap_err(), interp("no content_type in event payload"));
    let e = request_to_event(request(obj(vec![("content_type", s("text"))])), false);
    assert_eq!(e.unwrap_err(), interp("no text content in event"));
}

#[test]
fn request_is_secure_unless_it_says_otherwise() {
    let payload = obj(vec![("content_type", s("payload")), ("content", obj(vec![("payload", s("x"))]))]);
    assert!(request_to_event(request(payload), false).unwrap().secure);
}

fn event_with_ttl(ttl: Option<i64>) -> Event {
    Event {
        content_type: "text".to_owned(),
        content_value: "x".to_owned(),
        content: Json { value: JsonValue::Null, text: "null".to_owned() },
        ttl_duration: ttl,
        low_data_mode: None,
        step_limit: None,
        secure: true,
    }
}

#[test]
fn ttl_comes_from_event_then_configuration() {
    assert_eq!(get_ttl_duration_value(Some(&event_with_ttl(Some(3))), Some("7")), Some(3));
    assert_eq!(get_ttl_duration_value(Some(&event_with_ttl(None)), Some("7")), Some(7));
    assert_eq!(get_ttl_duration_value(None, Some("-2")), Some(-2));
    assert_eq!(get_ttl_duration_value(None, Some("+5")), Some(5));
    assert_eq!(get_ttl_duration_value(None, Some(" 5")), None);
    assert_eq!(get_ttl_duration_value(None, Some("5d")), None);
    assert_eq!(get_ttl_duration_value(None, Some("99999999999999999999")), None);
    assert_eq!(get_ttl_duration_value(None, None), None);
}

#[test]
fn configured_ttl_reads_the_whole_i64_range() {
    assert_eq!(get_ttl_duration_value(None, Some("-9223372036854775808")), Some(i64::MIN));
    assert_eq!(get_ttl_duration_value(None, Some("9223372036854775807")), Some(i64::MAX));
    assert_eq!(get_ttl_duration_value(None, Some("9223372036854775808")), None);
    assert_eq!(get_ttl_duration_value(None, Some("-9223372036854775809")), None);
    assert_eq!(get_ttl_duration_value(None, Some("-")), None);
    assert_eq!(get_ttl_duration_value(None, Some("")), None);
    assert_eq!(get_ttl_duration_value(None, Some("+-1")), None);
    assert_eq!(get_ttl_duration_value(None, Some("007")), Some(7));
}
