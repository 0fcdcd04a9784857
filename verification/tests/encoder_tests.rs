use serve_live::encoder::{decode_change_event, encode_change_event, ChangeEvent};

#[test]
fn encoding_is_exact_json() {
    let ev = ChangeEvent {
        paths: vec![String::from("a.txt"), String::from("b/c.txt")],
        dropped: false,
    };
    let msg = encode_change_event(&ev);
    assert_eq!(msg, "{\"paths\":[\"a.txt\",\"b/c.txt\"],\"dropped\":false}");
}

#[test]
fn encoding_an_empty_list_and_a_set_flag() {
    let ev = ChangeEvent { paths: vec![], dropped: true };
    assert_eq!(encode_change_event(&ev), "{\"paths\":[],\"dropped\":true}");
}

#[test]
fn round_trip_keeps_paths_and_flag() {
    let ev = ChangeEvent {
        paths: vec![String::from("a.txt"), String::from("b/c.txt")],
        dropped: false,
    };
    let back = decode_change_event(&encode_change_event(&ev)).expect("decodes");
    assert_eq!(back.paths, ev.paths);
    assert_eq!(back.dropped, false);
}

#[test]
fn round_trip_escapes_awkward_characters() {
    let ev = ChangeEvent {
        paths: vec![String::from("we\"ird\\pa\nth"), String::from("")],
        dropped: true,
    };
    let msg = encode_change_event(&ev);
    let back = decode_change_event(&msg).expect("decodes");
    assert_eq!(back.paths, ev.paths);
    assert!(back.dropped);
}

#[test]
fn encoded_message_is_valid_json_for_clients() {
    let ev = ChangeEvent {
        paths: vec![String::from("dir/x \"quoted\".txt"), String::from("y\\z")],
        dropped: true,
    };
    let msg = encode_change_event(&ev);
    let v: serde_json::Value = serde_json::from_str(&msg).expect("parses as JSON");
    assert_eq!(v["paths"][0].as_str(), Some("dir/x \"quoted\".txt"));
    assert_eq!(v["paths"][1].as_str(), Some("y\\z"));
    assert_eq!(v["dropped"].as_bool(), Some(true));
}

#[test]
fn garbage_does_not_decode() {
    assert!(decode_change_event("").is_none());
    assert!(decode_change_event("{\"paths\":[\"a\"]}").is_none());
    assert!(decode_change_event("{\"paths\":[\"a\",\"dropped\":false}").is_none());
    assert!(decode_change_event("{\"paths\":[\"a\"],\"dropped\":maybe}").is_none());
    assert!(decode_change_event("nonsense").is_none());
}
