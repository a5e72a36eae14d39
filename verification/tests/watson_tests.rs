use watsup::common::NonEmptyString;
use watsup::frame::{CompletedFrame, Frame};
use watsup::json::JsonValue;
use watsup::watson;

/// Bridge a parsed JSON document into the library's value model, the way the
/// surrounding tooling does before handing file contents to the codecs.
fn to_json_value(v: &serde_json::Value) -> JsonValue {
    match v {
        serde_json::Value::Null => JsonValue::Null,
        serde_json::Value::Bool(b) => JsonValue::Bool(*b),
        serde_json::Value::Number(n) => JsonValue::Int(n.as_i64().unwrap()),
        serde_json::Value::String(s) => JsonValue::Str(s.clone()),
        serde_json::Value::Array(a) => JsonValue::Arr(a.iter().map(to_json_value).collect()),
        serde_json::Value::Object(o) => {
            JsonValue::Obj(o.iter().map(|(k, x)| (k.clone(), to_json_value(x))).collect())
        }
    }
}

/// Bridge the library's value model back into a JSON document.
fn to_serde_value(v: &JsonValue) -> serde_json::Value {
    match v {
        JsonValue::Null => serde_json::Value::Null,
        JsonValue::Bool(b) => serde_json::Value::Bool(*b),
        JsonValue::Int(i) => serde_json::Value::Number((*i).into()),
        JsonValue::Str(s) => serde_json::Value::String(s.clone()),
        JsonValue::Arr(a) => serde_json::Value::Array(a.iter().map(to_serde_value).collect()),
        JsonValue::Obj(o) => serde_json::Value::Object(
            o.iter().map(|(k, x)| (k.clone(), to_serde_value(x))).collect(),
        ),
    }
}

fn make_test_frame() -> watson::Frame {
    watson::Frame::new(
        1620000000,
        1620003600,
        NonEmptyString::new("test_project").unwrap(),
        "abc123".to_string(),
        vec![
            NonEmptyString::new("tag1").unwrap(),
            NonEmptyString::new("tag2").unwrap(),
        ],
        1620004000,
    )
}

#[test]
fn test_frame_serialization() {
    let frame = make_test_frame();
    let serialized = serde_json::to_string(&to_serde_value(&watson::encode_frame(&frame))).unwrap();
    // Should be a JSON array of 6 elements
    let v: serde_json::Value = serde_json::from_str(&serialized).unwrap();
    assert!(v.is_array());
    let arr = v.as_array().unwrap();
    assert_eq!(arr.len(), 6);
    assert_eq!(arr[0], 1620000000);
    assert_eq!(arr[1], 1620003600);
    assert_eq!(arr[2], "test_project");
    assert_eq!(arr[3], "abc123");
    assert_eq!(arr[4], serde_json::Value::Array(vec!["tag1".into(), "tag2".into()]));
    assert_eq!(arr[5], 1620004000);
}

#[test]
fn test_frame_deserialization() {
    let json = r#"
        [
            1620000000,
            1620003600,
            "test_project",
            "abc123",
            ["tag1", "tag2"],
            1620004000
        ]
    "#;
    let value: serde_json::Value = serde_json::from_str(json).unwrap();
    let frame = watson::decode_frame(&to_json_value(&value)).unwrap();
    assert_eq!(frame.start_timestamp(), 1620000000);
    assert_eq!(frame.end_timestamp(), 1620003600);
    assert_eq!(frame.project().to_string(), "test_project");
    assert_eq!(frame.id(), "abc123");
    assert_eq!(frame.tags().len(), 2);
    assert_eq!(frame.tags()[0].to_string(), "tag1");
    assert_eq!(frame.tags()[1].to_string(), "tag2");
    assert_eq!(frame.last_edit_timestamp(), 1620004000);
}

#[test]
fn test_state_load_success() {
    let state_data = r#"
    {
        "project": "test_project",
        "start": 1620000000,
        "tags": ["tag1", "tag2"]
    }
    "#;
    let value: serde_json::Value = serde_json::from_str(state_data).unwrap();
    let loaded_state = watson::decode_state(&to_json_value(&value));

    assert!(loaded_state.is_some());
    let state = loaded_state.unwrap();
    assert_eq!(state.project().to_string(), "test_project");
    assert_eq!(state.start(), 1620000000);
    assert_eq!(state.tags().len(), 2);
    assert_eq!(state.tags()[0].to_string(), "tag1");
    assert_eq!(state.tags()[1].to_string(), "tag2");
}

#[test]
fn test_state_load_invalid_data() {
    let invalid_data = r#"
    {
        "invalid_key": "invalid_value"
    }
    "#;
    let value: serde_json::Value = serde_json::from_str(invalid_data).unwrap();
    let loaded_state = watson::decode_state(&to_json_value(&value));

    assert!(loaded_state.is_none());
}

#[test]
fn test_cleared_state_object_reads_as_stopped() {
    // The state file is cleared by writing an empty object.
    let value: serde_json::Value = serde_json::from_str("{}").unwrap();
    assert!(watson::decode_state(&to_json_value(&value)).is_none());
}

#[test]
fn test_frame_codec_round_trip() {
    let frame = make_test_frame();
    let encoded = watson::encode_frame(&frame);
    let decoded = watson::decode_frame(&encoded).unwrap();
    assert_eq!(decoded.start_timestamp(), frame.start_timestamp());
    assert_eq!(decoded.end_timestamp(), frame.end_timestamp());
    assert_eq!(decoded.project(), frame.project());
    assert_eq!(decoded.id(), frame.id());
    assert_eq!(decoded.tags(), frame.tags());
    assert_eq!(decoded.last_edit_timestamp(), frame.last_edit_timestamp());
}

#[test]
fn test_completed_frame_survives_wire_format() {
    let frame = Frame::new(
        NonEmptyString::new("writing-report").unwrap(),
        Some("fid42".to_string()),
        Some(1700000000),
        Some(1700005400),
        vec![NonEmptyString::new("deep-work").unwrap()],
        Some(1700005400),
    );
    let completed = CompletedFrame::from_frame(frame).unwrap();
    let wire = watson::Frame::from_completed(&completed);
    let back = watson::decode_frame(&watson::encode_frame(&wire)).unwrap().into_completed();
    assert_eq!(back.frame().id(), "fid42");
    assert_eq!(back.frame().project().to_string(), "writing-report");
    assert_eq!(back.frame().start(), 1700000000);
    assert_eq!(back.end(), 1700005400);
    assert_eq!(back.frame().last_edit(), 1700005400);
    assert_eq!(back.frame().tags().len(), 1);
    assert_eq!(back.frame().tags()[0].to_string(), "deep-work");
}

#[test]
fn test_decode_frames_filters_bad_records() {
    let json = r#"
        [
            [1, 2, "alpha", "id1", [], 3],
            "not a record",
            [4, 5, "", "id2", [], 6],
            [7, 8, "beta", "id3", ["t"], 9]
        ]
    "#;
    let value: serde_json::Value = serde_json::from_str(json).unwrap();
    let frames = watson::decode_frames(&to_json_value(&value)).unwrap();
    assert_eq!(frames.len(), 2);
    assert_eq!(frames[0].project().to_string(), "alpha");
    assert_eq!(frames[1].project().to_string(), "beta");
}

#[test]
fn test_decode_frames_rejects_non_array() {
    let value: serde_json::Value = serde_json::from_str("{\"a\": 1}").unwrap();
    assert!(watson::decode_frames(&to_json_value(&value)).is_none());
}

#[test]
fn test_decode_frame_rejects_empty_tag() {
    let json = r#"[1, 2, "alpha", "id1", ["ok", ""], 3]"#;
    let value: serde_json::Value = serde_json::from_str(json).unwrap();
    assert!(watson::decode_frame(&to_json_value(&value)).is_none());
}

#[test]
fn test_state_codec_round_trip() {
    let ongoing = watsup::state::OngoingFrame::new(
        NonEmptyString::new("alpha").unwrap(),
        1620000000,
        vec![NonEmptyString::new("tag1").unwrap()],
    );
    let state = watson::State::from_ongoing(&ongoing);
    let decoded = watson::decode_state(&watson::encode_state(&state)).unwrap();
    assert_eq!(decoded.project().to_string(), "alpha");
    assert_eq!(decoded.start(), 1620000000);
    assert_eq!(decoded.tags().len(), 1);
    assert_eq!(decoded.tags()[0].to_string(), "tag1");
}

#[test]
fn test_edit_codec_round_trip_without_stop() {
    let edit = watson::FrameEdit::new(
        NonEmptyString::new("alpha").unwrap(),
        "2021-05-03 02:40:00".to_string(),
        None,
        vec![NonEmptyString::new("tag1").unwrap()],
    );
    let encoded = watson::encode_edit(&edit);
    // the stop member is left out entirely, not set to null
    let doc = to_serde_value(&encoded);
    assert!(doc.get("stop").is_none());
    let decoded = watson::decode_edit(&encoded).unwrap();
    assert_eq!(decoded.project().to_string(), "alpha");
    assert_eq!(decoded.start_text(), "2021-05-03 02:40:00");
    assert!(decoded.stop_text().is_none());
    assert_eq!(decoded.tags().len(), 1);
}

#[test]
fn test_edit_codec_round_trip_with_stop() {
    let edit = watson::FrameEdit::new(
        NonEmptyString::new("alpha").unwrap(),
        "2021-05-03 02:40:00".to_string(),
        Some("2021-05-03 03:40:00".to_string()),
        vec![],
    );
    let decoded = watson::decode_edit(&watson::encode_edit(&edit)).unwrap();
    assert_eq!(decoded.stop_text().unwrap(), "2021-05-03 03:40:00");
}

#[test]
fn test_sort_records_orders_by_start() {
    let rec = |start: i64, id: &str| {
        watson::Frame::new(
            start,
            start + 60,
            NonEmptyString::new("alpha").unwrap(),
            id.to_string(),
            vec![],
            start + 60,
        )
    };
    let records = vec![rec(300, "c"), rec(100, "a"), rec(200, "b")];
    let sorted = watson::sort_records(&records);
    assert_eq!(sorted.len(), 3);
    assert_eq!(sorted[0].id(), "a");
    assert_eq!(sorted[1].id(), "b");
    assert_eq!(sorted[2].id(), "c");
}
