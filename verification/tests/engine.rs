use json_subscriber::fmt::Layer;
use json_subscriber::{
    check_number_token, escape_into, Cursor, EventData, FieldStore, JsonLayer, JsonVisitor, Value,
};

fn render(layer: &JsonLayer, event: &EventData, spans: &Vec<FieldStore>) -> String {
    let mut cursor = Cursor::new(Vec::new());
    layer.format_event(event, spans, &mut cursor);
    String::from_utf8(cursor.into_inner()).unwrap()
}

fn event(message: &str, target: &str) -> EventData {
    let mut ev = EventData::new(b"INFO".to_vec(), target.as_bytes().to_vec());
    ev.timestamp = Some(b"fake time".to_vec());
    let mut visitor = JsonVisitor::new();
    visitor.record_debug("message", message);
    ev.fields = visitor.finish_fields();
    ev
}

fn parse(s: &str) -> serde_json::Value {
    serde_json::from_str(s.trim_end()).expect("line must parse as JSON")
}

#[test]
fn escape_plain_text_unchanged() {
    let mut out = Vec::new();
    escape_into(&mut out, b"hello world");
    assert_eq!(out, b"hello world".to_vec());
}

#[test]
fn escape_quote_and_backslash() {
    let mut out = Vec::new();
    escape_into(&mut out, b"a\"b\\c");
    assert_eq!(out, b"a\\\"b\\\\c".to_vec());
}

#[test]
fn escape_control_characters() {
    let mut out = Vec::new();
    escape_into(&mut out, b"a\nb\tc\x01d");
    assert_eq!(out, b"a\\nb\\tc\\u0001d".to_vec());
}

#[test]
fn number_token_grammar() {
    assert!(check_number_token(b"0"));
    assert!(check_number_token(b"-12"));
    assert!(check_number_token(b"3.25"));
    assert!(check_number_token(b"-0.5e10"));
    assert!(check_number_token(b"1E-3"));
    assert!(!check_number_token(b""));
    assert!(!check_number_token(b"01"));
    assert!(!check_number_token(b"1."));
    assert!(!check_number_token(b"abc"));
    assert!(!check_number_token(b"1e"));
    assert!(!check_number_token(b"--1"));
}

#[test]
fn cache_unchanged_on_equal_record() {
    // Recording a field with the value it already holds must not change
    // the cached serialization.
    let mut visitor = JsonVisitor::new();
    visitor.record_i64("answer", 42);
    let mut span = visitor.finish_span("json_span");
    let before = span.serialized_bytes().clone();
    span.record_field(b"answer".to_vec(), Value::Int(42));
    span.refresh();
    let after = span.serialized_bytes().clone();
    assert_eq!(before, after);
}

#[test]
fn cache_updated_on_new_value() {
    let mut visitor = JsonVisitor::new();
    visitor.record_i64("answer", 42);
    let mut span = visitor.finish_span("json_span");
    span.record_field(b"answer".to_vec(), Value::Int(99));
    span.refresh();
    let text = String::from_utf8(span.serialized_bytes().clone()).unwrap();
    assert_eq!(text, "{\"answer\":99,\"name\":\"json_span\"}");
}

#[test]
fn name_not_overwritten_by_record() {
    let mut visitor = JsonVisitor::new();
    let mut span = visitor.finish_span("real_name");
    span.record_field(b"name".to_vec(), Value::Str(b"fake_name".to_vec()));
    span.refresh();
    let text = String::from_utf8(span.serialized_bytes().clone()).unwrap();
    assert_eq!(text, "{\"name\":\"real_name\"}");
}

#[test]
fn span_list_is_root_to_leaf() {
    // Three nested spans appear in the list from root to leaf.
    let mut va = JsonVisitor::new();
    va.record_i64("x", 1);
    let a = va.finish_span("A");
    let mut vb = JsonVisitor::new();
    vb.record_i64("y", 2);
    let b = vb.finish_span("B");
    let mut vc = JsonVisitor::new();
    vc.record_i64("z", 3);
    let c = vc.finish_span("C");
    let spans = vec![a, b, c];

    let mut layer = JsonLayer::empty();
    layer.with_span_list("spans");
    let actual = render(&layer, &EventData::new(b"INFO".to_vec(), b"t".to_vec()), &spans);
    assert_eq!(
        actual,
        "{\"spans\":[{\"name\":\"A\",\"x\":1},{\"name\":\"B\",\"y\":2},{\"name\":\"C\",\"z\":3}]}\n"
    );
}

#[test]
fn span_scoped_key_absent_without_span() {
    // A producer that resolves to nothing leaves its key out entirely;
    // it must not appear as null.
    let mut layer = JsonLayer::empty();
    layer.with_current_span("span");
    layer.with_span_list("spans");
    layer.add_from_span("custom", 7);
    layer.with_level("level");
    let spans = Vec::new();
    let actual = render(&layer, &EventData::new(b"INFO".to_vec(), b"t".to_vec()), &spans);
    assert_eq!(actual, "{\"level\":\"INFO\"}\n");
}

#[test]
fn unresolved_dynamic_key_absent() {
    let mut layer = JsonLayer::empty();
    layer.add_dynamic_field("counter", 3);
    layer.with_level("level");
    // No value resolved for token 3: the key is omitted, not null.
    let actual = render(&layer, &EventData::new(b"INFO".to_vec(), b"t".to_vec()), &Vec::new());
    assert_eq!(actual, "{\"level\":\"INFO\"}\n");
}

#[test]
fn resolved_dynamic_field_appears() {
    let mut layer = JsonLayer::empty();
    layer.add_dynamic_field("counter", 3);
    let mut ev = EventData::new(b"INFO".to_vec(), b"t".to_vec());
    ev.event_tokens.push((3, Value::UInt(42)));
    let actual = render(&layer, &ev, &Vec::new());
    assert_eq!(actual, "{\"counter\":42}\n");
}

#[test]
fn flatten_empty_event_contributes_nothing() {
    // Flattening an event with no fields adds no member and no comma.
    let mut layer = JsonLayer::empty();
    layer.with_level("level");
    layer.with_flattened_event();
    let actual = render(&layer, &EventData::new(b"INFO".to_vec(), b"t".to_vec()), &Vec::new());
    assert_eq!(actual, "{\"level\":\"INFO\"}\n");
}

#[test]
fn flatten_only_message() {
    // With a flattened event holding only a message, the output holds
    // exactly the other configured keys plus the message.
    let mut layer = JsonLayer::empty();
    layer.with_level("level");
    layer.with_flattened_event();
    let actual = render(&layer, &event("hi", "t"), &Vec::new());
    assert_eq!(actual, "{\"level\":\"INFO\",\"message\":\"hi\"}\n");
}

#[test]
fn scenario_plain_event() {
    // Timestamp, level, target and nested fields for a bare event.
    let mut layer = JsonLayer::empty();
    layer.with_timer("timestamp");
    layer.with_level("level");
    layer.with_target("target");
    layer.with_event("fields");
    let actual = render(&layer, &event("hello", "mymodule"), &Vec::new());
    assert_eq!(
        actual,
        "{\"fields\":{\"message\":\"hello\"},\"level\":\"INFO\",\"target\":\"mymodule\",\"timestamp\":\"fake time\"}\n"
    );
    assert_json_semantics(&actual);
}

fn assert_json_semantics(line: &str) {
    let v = parse(line);
    assert!(v.is_object());
}

#[test]
fn scenario_span_and_list() {
    // Entering a span with two fields shows the span nested and in the
    // span list, with its name injected.
    let mut visitor = JsonVisitor::new();
    visitor.record_i64("answer", 42);
    visitor.record_i64("number", 3);
    let span = visitor.finish_span("json_span");
    let spans = vec![span];
    let layer = Layer::default();
    let actual = render(layer.inner_layer(), &event("some json test", "t"), &spans);
    let v = parse(&actual);
    assert_eq!(v["span"]["answer"], serde_json::Value::from(42));
    assert_eq!(v["span"]["name"], serde_json::Value::from("json_span"));
    assert_eq!(v["span"]["number"], serde_json::Value::from(3));
    assert_eq!(v["spans"][0]["answer"], serde_json::Value::from(42));
    assert_eq!(v["spans"][0]["name"], serde_json::Value::from("json_span"));
    assert_eq!(v["spans"][0]["number"], serde_json::Value::from(3));
}

#[test]
fn scenario_record_overrides() {
    // A record after span creation shows the new value on the next
    // event that reads the span.
    let mut visitor = JsonVisitor::new();
    visitor.record_i64("answer", 42);
    visitor.record_i64("number", 3);
    let mut span = visitor.finish_span("json_span");
    span.record_field(b"answer".to_vec(), Value::Int(99));
    span.refresh();
    let spans = vec![span];
    let layer = Layer::default();
    let actual = render(layer.inner_layer(), &event("some json test", "t"), &spans);
    let v = parse(&actual);
    assert_eq!(v["span"]["answer"], serde_json::Value::from(99));
}

#[test]
fn scenario_flattened_event_fields() {
    // With event flattening and no fields key, message and event fields
    // are direct top level members.
    let layer = Layer::default().flatten_event(true).with_current_span(false).with_span_list(false);
    let mut ev = event("hello", "t");
    let mut visitor = JsonVisitor::new();
    visitor.record_debug("message", "hello");
    visitor.record_u64("extra", 7);
    ev.fields = visitor.finish_fields();
    let actual = render(layer.inner_layer(), &ev, &Vec::new());
    let v = parse(&actual);
    assert_eq!(v["message"], serde_json::Value::from("hello"));
    assert_eq!(v["extra"], serde_json::Value::from(7));
    assert!(v.get("fields").is_none());
}

#[test]
fn number_token_field_stays_numeric() {
    let mut visitor = JsonVisitor::new();
    visitor.record_number_token("pi", "3.25");
    let span = visitor.finish_span("s");
    let text = String::from_utf8(span.serialized_bytes().clone()).unwrap();
    assert_eq!(text, "{\"name\":\"s\",\"pi\":3.25}");
}

#[test]
fn bad_number_token_becomes_string() {
    let mut visitor = JsonVisitor::new();
    visitor.record_number_token("pi", "not a number");
    let span = visitor.finish_span("s");
    let text = String::from_utf8(span.serialized_bytes().clone()).unwrap();
    assert_eq!(text, "{\"name\":\"s\",\"pi\":\"not a number\"}");
}

#[test]
fn every_line_parses_as_json() {
    // Validity check over a mixed configuration, including strings that
    // need escaping everywhere.
    let mut layer = JsonLayer::empty();
    layer.with_timer("timestamp");
    layer.with_level("level");
    layer.with_target("target");
    layer.with_event("fields");
    layer.with_current_span("span");
    layer.with_span_list("spans");
    layer.add_static_field(
        "static\"key",
        Value::Str(b"weird \\ value\nwith newline".to_vec()),
    );
    let mut visitor = JsonVisitor::new();
    visitor.record_str("quote\"field", "va\\lue");
    let span = visitor.finish_span("na\"me");
    let spans = vec![span];
    let actual = render(&layer, &event("m\"s\\g\n", "ta\\rget"), &spans);
    let v = parse(&actual);
    assert!(v.is_object());
    assert_eq!(v["fields"]["message"], serde_json::Value::from("m\"s\\g\n"));
    assert_eq!(v["span"]["quote\"field"], serde_json::Value::from("va\\lue"));
    assert_eq!(v["span"]["name"], serde_json::Value::from("na\"me"));
}
