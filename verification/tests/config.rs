use json_subscriber::bunyan::to_bunyan_level;
use json_subscriber::{
    CachedQuery, Cursor, EventData, FieldStore, JsonLayer, JsonValue, RawQuery, SerdeMapVisitor,
    Value,
};

fn render(layer: &JsonLayer, event: &EventData, spans: &Vec<FieldStore>) -> String {
    let mut cursor = Cursor::new(Vec::new());
    layer.format_event(event, spans, &mut cursor);
    String::from_utf8(cursor.into_inner()).unwrap()
}

fn parse(s: &str) -> serde_json::Value {
    serde_json::from_str(s.trim_end()).expect("line must parse as JSON")
}

#[test]
fn add_and_remove_static() {
    let mut layer = JsonLayer::empty();
    let nested = Value::Obj(vec![
        (b"answer".to_vec(), Value::UInt(42)),
        (b"lorem".to_vec(), Value::Str(b"ipsum".to_vec())),
    ]);
    layer.add_static_field("static", nested);
    layer.add_static_field("zero", Value::UInt(0));
    layer.add_static_field("one", Value::UInt(1));
    layer.add_static_field("nonExistent", Value::UInt(1));
    layer.remove_field("nonExistent");

    let ev = EventData::new(b"INFO".to_vec(), b"t".to_vec());
    let actual = render(&layer, &ev, &Vec::new());
    let expected: serde_json::Value = serde_json::from_str(
        "{\"static\":{\"lorem\":\"ipsum\",\"answer\":42},\"zero\":0,\"one\":1}",
    )
    .unwrap();
    assert_eq!(expected, parse(&actual));
}

#[test]
fn replacing_a_key_keeps_one_entry() {
    let mut layer = JsonLayer::empty();
    layer.add_static_field("k", Value::UInt(1));
    layer.add_static_field("k", Value::UInt(2));
    let actual = render(&layer, &EventData::new(b"I".to_vec(), b"t".to_vec()), &Vec::new());
    assert_eq!(actual, "{\"k\":2}\n");
}

#[test]
fn removing_missing_key_is_noop() {
    let mut layer = JsonLayer::empty();
    layer.add_static_field("k", Value::UInt(1));
    layer.remove_field("missing");
    let actual = render(&layer, &EventData::new(b"I".to_vec(), b"t".to_vec()), &Vec::new());
    assert_eq!(actual, "{\"k\":1}\n");
}

#[test]
fn without_time_removes_timestamp() {
    let mut layer = JsonLayer::empty();
    layer.with_timer("timestamp");
    layer.with_level("level");
    layer.without_time();
    let mut ev = EventData::new(b"INFO".to_vec(), b"t".to_vec());
    ev.timestamp = Some(b"fake time".to_vec());
    let actual = render(&layer, &ev, &Vec::new());
    assert_eq!(actual, "{\"level\":\"INFO\"}\n");
}

#[test]
fn thread_details_render_when_known() {
    let mut layer = JsonLayer::empty();
    layer.with_thread_names("threadName");
    layer.with_thread_ids("threadId");
    let mut ev = EventData::new(b"INFO".to_vec(), b"t".to_vec());
    ev.thread_name = Some(b"main".to_vec());
    ev.thread_id = Some(b"ThreadId(1)".to_vec());
    let actual = render(&layer, &ev, &Vec::new());
    assert_eq!(actual, "{\"threadId\":\"ThreadId(1)\",\"threadName\":\"main\"}\n");
}

#[test]
fn static_value_kinds_render() {
    let mut layer = JsonLayer::empty();
    layer.add_static_field("n", Value::Null);
    layer.add_static_field("t", Value::Bool(true));
    layer.add_static_field("f", Value::Bool(false));
    layer.add_static_field("i", Value::Int(-5));
    layer.add_static_field("u", Value::UInt(7));
    layer.add_static_field("s", Value::Str(b"x".to_vec()));
    layer.add_static_field("a", Value::Arr(vec![Value::UInt(1), Value::UInt(2)]));
    let actual = render(&layer, &EventData::new(b"I".to_vec(), b"t".to_vec()), &Vec::new());
    assert_eq!(
        actual,
        "{\"a\":[1,2],\"f\":false,\"i\":-5,\"n\":null,\"s\":\"x\",\"t\":true,\"u\":7}\n"
    );
}

#[test]
fn multiple_dynamic_fields_flatten() {
    let mut layer = JsonLayer::empty();
    layer.with_level("level");
    layer.add_multiple_dynamic_fields(9);
    let mut ev = EventData::new(b"INFO".to_vec(), b"t".to_vec());
    ev.event_tokens.push((
        9,
        Value::Obj(vec![(b"question".to_vec(), Value::Str(b"What?".to_vec()))]),
    ));
    let actual = render(&layer, &ev, &Vec::new());
    assert_eq!(actual, "{\"level\":\"INFO\",\"question\":\"What?\"}\n");
}

#[test]
fn flattened_non_object_is_skipped() {
    let mut layer = JsonLayer::empty();
    layer.with_level("level");
    layer.add_multiple_dynamic_fields(9);
    let mut ev = EventData::new(b"INFO".to_vec(), b"t".to_vec());
    ev.event_tokens.push((9, Value::UInt(3)));
    let actual = render(&layer, &ev, &Vec::new());
    assert_eq!(actual, "{\"level\":\"INFO\"}\n");
}

#[test]
fn add_object_installs_producers() {
    let mut layer = JsonLayer::empty();
    layer.add_object("lvl", JsonValue::DynamicRawFromEvent(RawQuery::Level));
    layer.add_object("current", JsonValue::DynamicCachedFromSpan(CachedQuery::CurrentSpan));
    layer.add_object("pinned", JsonValue::Serde(Value::UInt(7)));
    let mut visitor = json_subscriber::JsonVisitor::new();
    visitor.record_bool("ok", true);
    let span = visitor.finish_span("s");
    let spans = vec![span];
    let actual = render(&layer, &EventData::new(b"WARN".to_vec(), b"t".to_vec()), &spans);
    assert_eq!(
        actual,
        "{\"current\":{\"name\":\"s\",\"ok\":true},\"lvl\":\"WARN\",\"pinned\":7}\n"
    );
}

#[test]
fn bunyan_levels() {
    assert_eq!(to_bunyan_level("ERROR"), 50);
    assert_eq!(to_bunyan_level("WARN"), 40);
    assert_eq!(to_bunyan_level("INFO"), 30);
    assert_eq!(to_bunyan_level("DEBUG"), 20);
    assert_eq!(to_bunyan_level("TRACE"), 10);
    assert_eq!(to_bunyan_level("WHATEVER"), 0);
}

#[test]
fn serde_map_visitor_builds_object() {
    let mut visitor = SerdeMapVisitor::new();
    visitor.record_str("msg", "hello");
    visitor.record_u64("v", 0);
    visitor.record_bool("ok", true);
    visitor.record_i64("delta", -2);
    let bytes = visitor.finish();
    let text = String::from_utf8(bytes).unwrap();
    assert_eq!(text, "{\"msg\":\"hello\",\"v\":0,\"ok\":true,\"delta\":-2}");
    assert!(serde_json::from_str::<serde_json::Value>(&text).is_ok());
}

#[test]
fn serde_map_visitor_empty() {
    let visitor = SerdeMapVisitor::new();
    let bytes = visitor.finish();
    assert_eq!(bytes, b"{}".to_vec());
}

#[test]
fn cursor_reuse() {
    let mut cursor = Cursor::new(Vec::new());
    let layer = JsonLayer::empty();
    let ev = EventData::new(b"I".to_vec(), b"t".to_vec());
    layer.format_event(&ev, &Vec::new(), &mut cursor);
    assert_eq!(cursor.bytes().as_slice(), b"{}\n");
    cursor.clear();
    assert!(cursor.bytes().is_empty());
    layer.format_event(&ev, &Vec::new(), &mut cursor);
    assert_eq!(cursor.into_inner(), b"{}\n".to_vec());
}
