use topic_tree::ingest::{payload_text, split_topic};
use topic_tree::timestamp::Timestamp;
use topic_tree::topic_node::TopicNode;
use zenoh::bytes::ZBytes;

fn bytes(raw: &[u8]) -> ZBytes {
    ZBytes::from(raw)
}

fn at(secs: i64) -> Timestamp {
    Timestamp { secs, nanos: 0, offset: 0 }
}

fn std_split(topic: &str) -> Vec<&str> {
    topic.split('/').collect()
}

#[test]
fn split_of_a_plain_topic() {
    assert_eq!(split_topic("sensor/temp"), vec!["sensor", "temp"]);
    assert_eq!(split_topic("a/b/c"), vec!["a", "b", "c"]);
    assert_eq!(split_topic("single"), vec!["single"]);
}

#[test]
fn split_of_the_empty_topic_is_one_empty_segment() {
    assert_eq!(split_topic(""), vec![""]);
}

#[test]
fn split_keeps_empty_segments() {
    assert_eq!(split_topic("/"), vec!["", ""]);
    assert_eq!(split_topic("/a"), vec!["", "a"]);
    assert_eq!(split_topic("a/"), vec!["a", ""]);
    assert_eq!(split_topic("a//b"), vec!["a", "", "b"]);
    assert_eq!(split_topic("//"), vec!["", "", ""]);
    assert_eq!(split_topic("/a//b/"), vec!["", "a", "", "b", ""]);
}

#[test]
fn split_counts_characters_not_bytes() {
    assert_eq!(split_topic("é/ü"), vec!["é", "ü"]);
    assert_eq!(split_topic("日本/語/😀😀/x"), vec!["日本", "語", "😀😀", "x"]);
    assert_eq!(split_topic("a\\b/c d/**"), vec!["a\\b", "c d", "**"]);
}

#[test]
fn split_agrees_with_std_and_joins_back() {
    for topic in ["", "/", "a", "a/b", "/a/b/", "a//b///c", "é/ü//", "**", "x/y/z/w/v/u"] {
        let parts = split_topic(topic);
        assert_eq!(parts, std_split(topic));
        assert_eq!(parts.join("/"), topic);
        assert!(parts.iter().all(|part| !part.contains('/')));
    }
}

#[test]
fn payload_that_is_text_is_kept() {
    assert_eq!(payload_text(&bytes(b"21.5")), "21.5");
    assert_eq!(payload_text(&bytes(b"")), "");
    assert_eq!(payload_text(&bytes("héllo 😀".as_bytes())), "héllo 😀");
    assert_eq!(payload_text(&bytes(&[0])), "\0");
    assert_eq!(payload_text(&ZBytes::from("as text")), "as text");
    assert_eq!(payload_text(&ZBytes::from(vec![b'v', b'e', b'c'])), "vec");
    assert_eq!(payload_text(&ZBytes::new()), "");
}

#[test]
fn payload_that_is_not_text_becomes_a_description() {
    let cases: [&[u8]; 5] =
        [&[0xff], &[b'o', b'k', 0xc3], &[0xc0, 0x80], &[0xed, 0xa0, 0x80], &[b'a', 0xf8, b'b']];
    for raw in cases {
        let text = payload_text(&bytes(raw));
        assert!(!text.is_empty());
        assert_eq!(text, std::str::from_utf8(raw).unwrap_err().to_string());
        assert_eq!(text, bytes(raw).try_to_string().unwrap_err().to_string());
        assert_ne!(text.as_bytes(), raw);
    }
    assert!(payload_text(&bytes(&[0xff])).contains("utf-8"));
}

#[test]
fn events_build_the_tree() {
    let mut root = TopicNode::new("root");
    root.ingest_at("sensor/temp", &bytes(b"21.5"), at(1));
    root.ingest_at("sensor/temp", &bytes(b"21.7"), at(2));
    root.ingest_at("sensor/humidity", &bytes(b"55"), at(3));
    assert_eq!(root.children.len(), 1);
    let sensor = &root.children[0];
    assert_eq!(sensor.name, "sensor");
    assert!(!sensor.is_leaf);
    assert!(sensor.messages.is_empty());
    assert_eq!(sensor.children.len(), 2);
    let temp = sensor.child("temp").unwrap();
    assert!(temp.is_leaf);
    assert!(temp.children.is_empty());
    assert_eq!(temp.messages, vec![(at(1), "21.5".to_string()), (at(2), "21.7".to_string())]);
    let humidity = sensor.child("humidity").unwrap();
    assert!(humidity.is_leaf);
    assert!(humidity.children.is_empty());
    assert_eq!(humidity.messages, vec![(at(3), "55".to_string())]);
    assert_eq!(sensor.children[0].name, "temp");
    assert_eq!(sensor.children[1].name, "humidity");
    assert!(!root.is_leaf);
    assert!(root.messages.is_empty());
}

#[test]
fn empty_topic_is_a_child_without_a_name() {
    let mut root = TopicNode::new("root");
    root.ingest_at("", &bytes(b"x"), at(1));
    assert_eq!(root.children.len(), 1);
    let child = &root.children[0];
    assert_eq!(child.name, "");
    assert!(child.is_leaf);
    assert!(child.children.is_empty());
    assert_eq!(child.messages, vec![(at(1), "x".to_string())]);
    assert!(!root.is_leaf);
    assert!(root.messages.is_empty());
}

#[test]
fn doubled_separators_make_nodes_without_names() {
    let mut root = TopicNode::new("root");
    root.ingest_at("a//b", &bytes(b"1"), at(1));
    root.ingest_at("a/b", &bytes(b"2"), at(2));
    let a = root.child("a").unwrap();
    assert_eq!(a.children.len(), 2);
    assert_eq!(a.children[0].name, "");
    assert_eq!(a.children[1].name, "b");
    assert_eq!(root.find(&["a", "", "b"]).unwrap().messages, vec![(at(1), "1".to_string())]);
    assert_eq!(root.find(&["a", "b"]).unwrap().messages, vec![(at(2), "2".to_string())]);
}

#[test]
fn bad_payload_is_recorded_and_ingestion_goes_on() {
    let mut root = TopicNode::new("root");
    root.ingest_at("a/b", &bytes(b"before"), at(1));
    root.ingest_at("a/b", &bytes(&[0xff, 0xfe]), at(2));
    root.ingest_at("a/b", &bytes(b"after"), at(3));
    root.ingest_at("a/c", &bytes(b"elsewhere"), at(4));
    let b = root.find(&["a", "b"]).unwrap();
    assert_eq!(b.messages.len(), 3);
    assert_eq!(b.messages[0], (at(1), "before".to_string()));
    assert_eq!(b.messages[2], (at(3), "after".to_string()));
    let (when, placeholder) = &b.messages[1];
    assert_eq!(*when, at(2));
    assert!(!placeholder.is_empty());
    assert_eq!(*placeholder, std::str::from_utf8(&[0xff, 0xfe]).unwrap_err().to_string());
    assert_eq!(
        root.find(&["a", "c"]).unwrap().messages,
        vec![(at(4), "elsewhere".to_string())]
    );
}

#[test]
fn ingest_stamps_with_the_clock() {
    let before = chrono::Local::now().timestamp();
    let mut root = TopicNode::new("root");
    root.ingest("sensor/temp", &bytes(b"21.5"));
    root.ingest("sensor/temp", &bytes(b"21.7"));
    let after = chrono::Local::now().timestamp();
    let temp = root.find(&["sensor", "temp"]).unwrap();
    assert_eq!(temp.messages.len(), 2);
    assert_eq!(temp.messages[0].1, "21.5");
    assert_eq!(temp.messages[1].1, "21.7");
    for (stamp, _) in &temp.messages {
        assert!(before <= stamp.secs && stamp.secs <= after);
        assert!(stamp.is_valid());
    }
    assert!(temp.messages[0].0.secs <= temp.messages[1].0.secs);
}
