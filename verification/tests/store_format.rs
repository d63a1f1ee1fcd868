use acta::model::{Todo, TodoState};
use acta::persistence::{read, ActaError};

fn sample() -> Vec<Todo> {
    vec![
        Todo::new(1, String::from("buy milk"), TodoState::Pending),
        Todo::new(2, String::from("write report"), TodoState::Completed),
        Todo::new(3, String::from("call home"), TodoState::Pending),
    ]
}

fn assert_same(a: &[Todo], b: &[Todo]) {
    assert_eq!(a.len(), b.len());
    for (x, y) in a.iter().zip(b.iter()) {
        assert_eq!(x.id, y.id);
        assert_eq!(x.content, y.content);
        assert_eq!(x.state, y.state);
    }
}

#[test]
fn round_trip_plain_records() {
    let todos = sample();
    let text = acta::persistence::write(&todos);
    let back = read(&text).expect("canonical store content must parse");
    assert_same(&todos, &back);
}

#[test]
fn round_trip_empty_list() {
    let todos: Vec<Todo> = Vec::new();
    let text = acta::persistence::write(&todos);
    assert_eq!(text, "[]");
    let back = read(&text).expect("empty store must parse");
    assert!(back.is_empty());
}

#[test]
fn round_trip_special_characters() {
    let todos = vec![
        Todo::new(7, String::from("say \"hi\" to C:\\temp"), TodoState::Pending),
        Todo::new(8, String::from("line one\nline two\ttabbed"), TodoState::Completed),
        Todo::new(9, String::from("caf\u{e9} \u{2603} \u{1F600}"), TodoState::Pending),
        Todo::new(10, String::from("bell\u{7}and\u{1b}escape"), TodoState::Pending),
    ];
    let text = acta::persistence::write(&todos);
    let back = read(&text).expect("escaped store content must parse");
    assert_same(&todos, &back);
}

#[test]
fn round_trip_extreme_ids() {
    let todos = vec![
        Todo::new(0, String::from("zero"), TodoState::Pending),
        Todo::new(u64::MAX, String::from("largest"), TodoState::Completed),
    ];
    let text = acta::persistence::write(&todos);
    assert!(text.contains("18446744073709551615"));
    let back = read(&text).expect("extreme ids must parse");
    assert_same(&todos, &back);
}

#[test]
fn exact_encoding_of_one_record() {
    let todos = vec![Todo::new(42, String::from("plain"), TodoState::Pending)];
    let text = acta::persistence::write(&todos);
    assert_eq!(text, "[{\"id\":42,\"content\":\"plain\",\"state\":\"Pending\"}]");
}

#[test]
fn exact_encoding_of_completed_record() {
    let todos = vec![Todo::new(5, String::from("done"), TodoState::Completed)];
    let text = acta::persistence::write(&todos);
    assert_eq!(text, "[{\"id\":5,\"content\":\"done\",\"state\":\"Completed\"}]");
}

#[test]
fn reads_whitespace_between_tokens() {
    let text = " [ {\"id\" : 1 , \"content\" : \"x\" , \"state\" : \"Pending\" } ] ";
    let back = read(text).expect("whitespace between tokens is allowed");
    assert_eq!(back.len(), 1);
    assert_eq!(back[0].id, 1);
    assert_eq!(back[0].content, "x");
    assert_eq!(back[0].state, TodoState::Pending);
}

#[test]
fn reads_members_in_any_order() {
    let text = "[{\"content\":\"x\",\"id\":1,\"state\":\"Pending\"}]";
    let back = read(text).expect("object members carry no order");
    assert_eq!(back.len(), 1);
    assert_eq!(back[0].id, 1);
    assert_eq!(back[0].content, "x");
    assert_eq!(back[0].state, TodoState::Pending);

    let text = "[{\"state\":\"Completed\",\"content\":\"y\",\"id\":2}]";
    let back = read(text).expect("object members carry no order");
    assert_eq!(back[0].id, 2);
    assert_eq!(back[0].content, "y");
    assert_eq!(back[0].state, TodoState::Completed);
}

#[test]
fn rejects_repeated_member() {
    assert!(matches!(
        read("[{\"id\":1,\"id\":2,\"content\":\"x\",\"state\":\"Pending\"}]"),
        Err(ActaError::Parse(_))
    ));
}

#[test]
fn rejects_unknown_member() {
    assert!(matches!(
        read("[{\"id\":1,\"content\":\"x\",\"state\":\"Pending\",\"note\":\"y\"}]"),
        Err(ActaError::Parse(_))
    ));
}

#[test]
fn reads_surrogate_pair_escapes() {
    let text = "[{\"id\":1,\"content\":\"\\ud83d\\ude00 ok\",\"state\":\"Pending\"}]";
    let back = read(text).expect("a surrogate pair denotes one character");
    assert_eq!(back[0].content, "\u{1F600} ok");
}

#[test]
fn rejects_lone_low_surrogate() {
    assert!(matches!(
        read("[{\"id\":1,\"content\":\"\\udc00\",\"state\":\"Pending\"}]"),
        Err(ActaError::Parse(_))
    ));
}

#[test]
fn rejects_unpaired_high_surrogate() {
    assert!(matches!(
        read("[{\"id\":1,\"content\":\"\\ud83d\\u0041\",\"state\":\"Pending\"}]"),
        Err(ActaError::Parse(_))
    ));
}

#[test]
fn reads_unicode_escapes() {
    let text = "[{\"id\":1,\"content\":\"\\u0041\\u00e9\\u262f\",\"state\":\"Pending\"}]";
    let back = read(text).expect("unicode escapes are allowed");
    assert_eq!(back[0].content, "A\u{e9}\u{262f}");
}

#[test]
fn rejects_not_json() {
    let r = read("not-json");
    match r {
        Err(ActaError::Parse(_)) => {}
        _ => panic!("malformed text must fail with a parse error"),
    }
}

#[test]
fn rejects_truncated_array() {
    assert!(matches!(
        read("[{\"id\":1,\"content\":\"x\",\"state\":\"Pending\"}"),
        Err(ActaError::Parse(_))
    ));
}

#[test]
fn rejects_unknown_state_tag() {
    assert!(matches!(
        read("[{\"id\":1,\"content\":\"x\",\"state\":\"Done\"}]"),
        Err(ActaError::Parse(_))
    ));
}

#[test]
fn rejects_missing_field() {
    assert!(matches!(
        read("[{\"id\":1,\"state\":\"Pending\"}]"),
        Err(ActaError::Parse(_))
    ));
}

#[test]
fn rejects_trailing_text() {
    assert!(matches!(read("[] extra"), Err(ActaError::Parse(_))));
}

#[test]
fn rejects_oversized_id() {
    assert!(matches!(
        read("[{\"id\":18446744073709551616,\"content\":\"x\",\"state\":\"Pending\"}]"),
        Err(ActaError::Parse(_))
    ));
}

#[test]
fn rejects_surrogate_escape() {
    assert!(matches!(
        read("[{\"id\":1,\"content\":\"\\ud800\",\"state\":\"Pending\"}]"),
        Err(ActaError::Parse(_))
    ));
}

#[test]
fn rejects_raw_control_character() {
    let text = "[{\"id\":1,\"content\":\"a\u{1}b\",\"state\":\"Pending\"}]";
    assert!(matches!(read(text), Err(ActaError::Parse(_))));
}

#[test]
fn never_returns_partial_list() {
    // one good record, then garbage: nothing comes back
    let text = "[{\"id\":1,\"content\":\"x\",\"state\":\"Pending\"},oops]";
    assert!(matches!(read(text), Err(ActaError::Parse(_))));
}

#[test]
fn emitted_text_is_valid_json() {
    let todos = vec![
        Todo::new(1, String::from("quote \" slash \\ tab\t"), TodoState::Pending),
        Todo::new(2, String::from("control\u{2}char"), TodoState::Completed),
    ];
    let text = acta::persistence::write(&todos);
    let v: serde_json::Value = serde_json::from_str(&text).expect("store text must be JSON");
    let arr = v.as_array().expect("store text must be a JSON array");
    assert_eq!(arr.len(), 2);
    assert_eq!(arr[0]["id"].as_u64(), Some(1));
    assert_eq!(arr[0]["content"].as_str(), Some("quote \" slash \\ tab\t"));
    assert_eq!(arr[0]["state"].as_str(), Some("Pending"));
    assert_eq!(arr[1]["content"].as_str(), Some("control\u{2}char"));
    assert_eq!(arr[1]["state"].as_str(), Some("Completed"));
}

#[test]
fn reads_what_another_json_encoder_emits() {
    // serde_json's Value serializer orders members alphabetically:
    // content, id, state — not store order
    let mut obj = serde_json::Map::new();
    obj.insert("id".to_string(), serde_json::Value::from(3u64));
    obj.insert(
        "content".to_string(),
        serde_json::Value::from("from another encoder"),
    );
    obj.insert("state".to_string(), serde_json::Value::from("Completed"));
    let v = serde_json::Value::Array(vec![serde_json::Value::Object(obj)]);
    let text = serde_json::to_string(&v).unwrap();
    let back = read(&text).expect("another encoder's member order must load");
    assert_eq!(back.len(), 1);
    assert_eq!(back[0].id, 3);
    assert_eq!(back[0].content, "from another encoder");
    assert_eq!(back[0].state, TodoState::Completed);
}

#[test]
fn round_trip_survives_reencoding() {
    let todos = sample();
    let once = acta::persistence::write(&todos);
    let back = read(&once).unwrap();
    let twice = acta::persistence::write(&back);
    assert_eq!(once, twice);
}
