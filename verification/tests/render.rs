use json_subscriber::fmt::Layer;
use json_subscriber::{Cursor, EventData, FieldStore, JsonLayer, JsonVisitor};

fn render(layer: &JsonLayer, event: &EventData, spans: &Vec<FieldStore>) -> String {
    let mut cursor = Cursor::new(Vec::new());
    layer.format_event(event, spans, &mut cursor);
    String::from_utf8(cursor.into_inner()).unwrap()
}

fn render_layer(layer: &Layer, event: &EventData, spans: &Vec<FieldStore>) -> String {
    render(layer.inner_layer(), event, spans)
}

fn event(message: &str, target: &str) -> EventData {
    let mut ev = EventData::new(b"INFO".to_vec(), target.as_bytes().to_vec());
    ev.timestamp = Some(b"fake time".to_vec());
    let mut visitor = JsonVisitor::new();
    visitor.record_debug("message", message);
    ev.fields = visitor.finish_fields();
    ev
}

fn json_span() -> FieldStore {
    let mut visitor = JsonVisitor::new();
    visitor.record_i64("answer", 42);
    visitor.record_i64("number", 3);
    visitor.finish_span("json_span")
}

fn nested_json_span() -> FieldStore {
    let mut visitor = JsonVisitor::new();
    visitor.record_i64("answer", 43);
    visitor.record_i64("number", 4);
    visitor.finish_span("nested_json_span")
}

fn child_span() -> FieldStore {
    let mut visitor = JsonVisitor::new();
    visitor.record_i64("number", 100);
    visitor.finish_span("child_span")
}

fn parse(s: &str) -> serde_json::Value {
    serde_json::from_str(s.trim_end()).expect("line must parse as JSON")
}

fn assert_json_eq(expected: &str, actual: &str) {
    assert_eq!(parse(expected), parse(actual), "expected != actual; actual: {actual}");
}

#[test]
fn default() {
    let layer = Layer::default();
    let spans = vec![json_span()];
    let actual = render_layer(&layer, &event("some json test", "json_subscriber::fmt::layer::tests"), &spans);
    assert_json_eq(
        "{\"timestamp\":\"fake time\",\"level\":\"INFO\",\
         \"span\":{\"answer\":42,\"name\":\"json_span\",\"number\":3},\
         \"spans\":[{\"answer\":42,\"name\":\"json_span\",\"number\":3}],\
         \"target\":\"json_subscriber::fmt::layer::tests\",\
         \"fields\":{\"message\":\"some json test\"}}",
        &actual,
    );
}

#[test]
fn flatten() {
    let layer = Layer::default()
        .flatten_event(true)
        .with_current_span(true)
        .with_span_list(true);
    let spans = vec![json_span()];
    let actual = render_layer(&layer, &event("some json test", "json_subscriber::fmt::layer::tests"), &spans);
    assert_json_eq(
        "{\"timestamp\":\"fake time\",\"level\":\"INFO\",\
         \"span\":{\"answer\":42,\"name\":\"json_span\",\"number\":3},\
         \"spans\":[{\"answer\":42,\"name\":\"json_span\",\"number\":3}],\
         \"target\":\"json_subscriber::fmt::layer::tests\",\
         \"message\":\"some json test\"}",
        &actual,
    );
}

#[test]
fn flatten_conflict() {
    // An event field that collides with a configured key is the caller's
    // responsibility: both members are emitted, keyed entries first.
    let layer = Layer::default()
        .flatten_event(true)
        .with_current_span(false)
        .with_span_list(false)
        .with_target(false);
    let mut ev = event("some json test", "unused");
    let mut visitor = JsonVisitor::new();
    visitor.record_str("level", "this is a bug");
    visitor.record_debug("message", "some json test");
    ev.fields = visitor.finish_fields();
    let spans = vec![json_span()];
    let actual = render_layer(&layer, &ev, &spans);
    let expected = "{\"level\":\"INFO\",\"timestamp\":\"fake time\",\"level\":\"this is a bug\",\"message\":\"some json test\"}\n";
    assert_eq!(expected, actual);
}

#[test]
fn flat_span_list() {
    let layer = Layer::default().with_flat_span_list(true).with_current_span(false);
    let mut child = child_span();
    child.record_field(b"text".to_vec(), json_subscriber::Value::Str(b"text".to_vec()));
    child.refresh();
    let spans = vec![json_span(), child];
    let actual = render_layer(&layer, &event("some json test", "json_subscriber::fmt::layer::tests"), &spans);
    assert_json_eq(
        "{\"timestamp\":\"fake time\",\"level\":\"INFO\",\
         \"spans\":{\"answer\":42,\"name\":\"child_span\",\"number\":100,\"text\":\"text\"},\
         \"target\":\"json_subscriber::fmt::layer::tests\",\
         \"fields\":{\"message\":\"some json test\"}}",
        &actual,
    );
}

#[test]
fn top_level_flatten_current_span() {
    let layer = Layer::default()
        .with_target(false)
        .with_span_list(false)
        .flatten_current_span_on_top_level(true);
    let mut child = child_span();
    child.record_field(b"text".to_vec(), json_subscriber::Value::Str(b"text".to_vec()));
    child.refresh();
    let spans = vec![json_span(), child];
    let actual = render_layer(&layer, &event("some json test", "unused"), &spans);
    assert_json_eq(
        "{\"timestamp\":\"fake time\",\"level\":\"INFO\",\
         \"name\":\"child_span\",\"number\":100,\"text\":\"text\",\
         \"fields\":{\"message\":\"some json test\"}}",
        &actual,
    );
}

#[test]
fn top_level_flatten_span_list() {
    let layer = Layer::default()
        .with_target(false)
        .with_current_span(false)
        .flatten_span_list_on_top_level(true);
    let mut child = child_span();
    child.record_field(b"text".to_vec(), json_subscriber::Value::Str(b"text".to_vec()));
    child.refresh();
    let spans = vec![json_span(), child];
    let actual = render_layer(&layer, &event("some json test", "unused"), &spans);
    assert_json_eq(
        "{\"timestamp\":\"fake time\",\"level\":\"INFO\",\
         \"name\":\"child_span\",\"answer\":42,\"number\":100,\"text\":\"text\",\
         \"fields\":{\"message\":\"some json test\"}}",
        &actual,
    );
}

#[test]
fn target_quote() {
    let layer = Layer::default()
        .with_span_list(false)
        .with_current_span(false)
        .with_level(false);
    let spans = Vec::new();
    let actual = render_layer(&layer, &event("some json test", "\""), &spans);
    assert_json_eq(
        "{\"timestamp\":\"fake time\",\"target\":\"\\\"\",\"fields\":{\"message\":\"some json test\"}}",
        &actual,
    );
}

#[test]
fn target_backslash() {
    let layer = Layer::default()
        .with_span_list(false)
        .with_current_span(false)
        .with_level(false);
    let spans = Vec::new();
    let actual = render_layer(&layer, &event("some json test", "\\hello\\\\world\\"), &spans);
    assert_json_eq(
        "{\"timestamp\":\"fake time\",\"target\":\"\\\\hello\\\\\\\\world\\\\\",\"fields\":{\"message\":\"some json test\"}}",
        &actual,
    );
}

#[test]
fn json_filename() {
    let layer = Layer::default()
        .flatten_event(false)
        .with_current_span(true)
        .with_file(true)
        .with_span_list(true);
    let mut ev = event("some json test", "json_subscriber::builder::test");
    ev.file = Some(b"src/builder.rs".to_vec());
    let spans = vec![json_span()];
    let actual = render_layer(&layer, &ev, &spans);
    assert_json_eq(
        "{\"timestamp\":\"fake time\",\"level\":\"INFO\",\
         \"span\":{\"answer\":42,\"name\":\"json_span\",\"number\":3},\
         \"spans\":[{\"answer\":42,\"name\":\"json_span\",\"number\":3}],\
         \"target\":\"json_subscriber::builder::test\",\
         \"filename\":\"src/builder.rs\",\
         \"fields\":{\"message\":\"some json test\"}}",
        &actual,
    );
}

#[test]
fn json_line_number() {
    let layer = Layer::default()
        .flatten_event(false)
        .with_current_span(true)
        .with_line_number(true)
        .with_span_list(true);
    let mut ev = event("some json test", "json_subscriber::builder::test");
    ev.line = Some(42);
    let spans = vec![json_span()];
    let actual = render_layer(&layer, &ev, &spans);
    assert_json_eq(
        "{\"timestamp\":\"fake time\",\"level\":\"INFO\",\
         \"span\":{\"answer\":42,\"name\":\"json_span\",\"number\":3},\
         \"spans\":[{\"answer\":42,\"name\":\"json_span\",\"number\":3}],\
         \"target\":\"json_subscriber::builder::test\",\
         \"line_number\":42,\
         \"fields\":{\"message\":\"some json test\"}}",
        &actual,
    );
}

#[test]
fn json_flattened_event() {
    let layer = Layer::default()
        .flatten_event(true)
        .with_current_span(true)
        .with_span_list(true);
    let spans = vec![json_span()];
    let actual = render_layer(&layer, &event("some json test", "json_subscriber::builder::test"), &spans);
    assert_json_eq(
        "{\"timestamp\":\"fake time\",\"level\":\"INFO\",\
         \"span\":{\"answer\":42,\"name\":\"json_span\",\"number\":3},\
         \"spans\":[{\"answer\":42,\"name\":\"json_span\",\"number\":3}],\
         \"target\":\"json_subscriber::builder::test\",\
         \"message\":\"some json test\"}",
        &actual,
    );
}

#[test]
fn json_disabled_current_span_event() {
    let layer = Layer::default()
        .flatten_event(false)
        .with_current_span(false)
        .with_span_list(true);
    let spans = vec![json_span()];
    let actual = render_layer(&layer, &event("some json test", "json_subscriber::builder::test"), &spans);
    assert_json_eq(
        "{\"timestamp\":\"fake time\",\"level\":\"INFO\",\
         \"spans\":[{\"answer\":42,\"name\":\"json_span\",\"number\":3}],\
         \"target\":\"json_subscriber::builder::test\",\
         \"fields\":{\"message\":\"some json test\"}}",
        &actual,
    );
}

#[test]
fn json_disabled_span_list_event() {
    let layer = Layer::default()
        .flatten_event(false)
        .with_current_span(true)
        .with_span_list(false);
    let spans = vec![json_span()];
    let actual = render_layer(&layer, &event("some json test", "json_subscriber::builder::test"), &spans);
    assert_json_eq(
        "{\"timestamp\":\"fake time\",\"level\":\"INFO\",\
         \"span\":{\"answer\":42,\"name\":\"json_span\",\"number\":3},\
         \"target\":\"json_subscriber::builder::test\",\
         \"fields\":{\"message\":\"some json test\"}}",
        &actual,
    );
}

#[test]
fn json_nested_span() {
    let layer = Layer::default()
        .flatten_event(false)
        .with_current_span(true)
        .with_span_list(true);
    let spans = vec![json_span(), nested_json_span()];
    let actual = render_layer(&layer, &event("some json test", "json_subscriber::builder::test"), &spans);
    assert_json_eq(
        "{\"timestamp\":\"fake time\",\"level\":\"INFO\",\
         \"span\":{\"answer\":43,\"name\":\"nested_json_span\",\"number\":4},\
         \"spans\":[{\"answer\":42,\"name\":\"json_span\",\"number\":3},\
                    {\"answer\":43,\"name\":\"nested_json_span\",\"number\":4}],\
         \"target\":\"json_subscriber::builder::test\",\
         \"fields\":{\"message\":\"some json test\"}}",
        &actual,
    );
}

#[test]
fn json_explicit_span() {
    // An event attached to an explicit span renders against that span's
    // chain, whether or not the span was entered.
    let layer = Layer::default()
        .flatten_event(false)
        .with_current_span(true)
        .with_span_list(true);
    let spans = vec![json_span(), nested_json_span()];
    let actual = render_layer(&layer, &event("some json test", "json_subscriber::builder::test"), &spans);
    assert_json_eq(
        "{\"timestamp\":\"fake time\",\"level\":\"INFO\",\
         \"span\":{\"answer\":43,\"name\":\"nested_json_span\",\"number\":4},\
         \"spans\":[{\"answer\":42,\"name\":\"json_span\",\"number\":3},\
                    {\"answer\":43,\"name\":\"nested_json_span\",\"number\":4}],\
         \"target\":\"json_subscriber::builder::test\",\
         \"fields\":{\"message\":\"some json test\"}}",
        &actual,
    );
}

#[test]
fn json_explicit_no_span() {
    // An event explicitly detached from any span renders with no span
    // members at all.
    let layer = Layer::default()
        .flatten_event(false)
        .with_current_span(true)
        .with_span_list(true);
    let spans = Vec::new();
    let actual = render_layer(&layer, &event("some json test", "json_subscriber::builder::test"), &spans);
    assert_json_eq(
        "{\"timestamp\":\"fake time\",\"level\":\"INFO\",\
         \"target\":\"json_subscriber::builder::test\",\
         \"fields\":{\"message\":\"some json test\"}}",
        &actual,
    );
}

#[test]
fn json_no_span() {
    let layer = Layer::default()
        .flatten_event(false)
        .with_current_span(true)
        .with_span_list(true);
    let spans = Vec::new();
    let actual = render_layer(&layer, &event("some json test", "json_subscriber::builder::test"), &spans);
    assert_json_eq(
        "{\"timestamp\":\"fake time\",\"level\":\"INFO\",\
         \"target\":\"json_subscriber::builder::test\",\
         \"fields\":{\"message\":\"some json test\"}}",
        &actual,
    );
}

#[test]
fn record_works() {
    // Recording on a span must not disturb events, and the recorded
    // value must appear on later reads.
    let layer = Layer::default();
    let no_spans = Vec::new();
    let outside = render_layer(&layer, &event("an event outside the root span", "t"), &no_spans);
    assert_eq!(
        parse(&outside)["fields"]["message"],
        serde_json::Value::String("an event outside the root span".to_string())
    );

    let mut visitor = JsonVisitor::new();
    let mut span = visitor.finish_span("the span");
    span.record_field(b"na".to_vec(), json_subscriber::Value::Str(b"value".to_vec()));
    span.refresh();
    let spans = vec![span];
    let inside = render_layer(&layer, &event("an event inside the root span", "t"), &spans);
    assert_eq!(
        parse(&inside)["fields"]["message"],
        serde_json::Value::String("an event inside the root span".to_string())
    );
    assert_eq!(parse(&inside)["span"]["na"], serde_json::Value::String("value".to_string()));
}
