use rig::completion::Message;
use tsukkomi::compactor::{compaction_input, format_summary};

#[test]
fn format_summary_output() {
    let header = "历史摘要";
    let summary = "users discussed rust";
    let expected = format_summary(header, summary);
    assert_eq!(expected, "## 历史摘要\n\nusers discussed rust");
}

#[test]
fn compaction_input_puts_carry_over_first() {
    let got = compaction_input(Some("previous summary"), vec!["hello", "world"]);
    assert_eq!(got, vec!["previous summary", "hello", "world"]);
}

#[test]
fn compaction_input_without_carry_over() {
    let got = compaction_input(None, vec!["only message"]);
    assert_eq!(got, vec!["only message"]);
}

#[test]
fn message_payload_ordering_with_carry_over() {
    // The carry-over is put before the evicted messages.
    let carry_over = Message::System {
        content: "previous summary".into(),
    };
    let evicted = vec![Message::user("hello"), Message::user("world")];

    let messages: Vec<Message> = compaction_input(Some(carry_over.clone()), evicted.clone());

    assert_eq!(messages.len(), 3);
    assert!(
        matches!(&messages[0], Message::System { content } if content == "previous summary")
    );

    let payload = serde_json::to_string(&messages).unwrap();
    assert!(payload.contains("hello"));
    assert!(payload.contains("world"));
    let hello_pos = payload.find("hello").unwrap();
    let world_pos = payload.find("world").unwrap();
    let summary_pos = payload.find("previous summary").unwrap();
    assert!(summary_pos < hello_pos);
    assert!(hello_pos < world_pos);
}

#[test]
fn message_payload_without_carry_over() {
    let evicted = vec![Message::user("only message")];
    let messages: Vec<Message> = compaction_input(None, evicted.clone());

    assert_eq!(messages.len(), 1);
    let payload = serde_json::to_string(&messages).unwrap();
    assert!(payload.contains("only message"));
}

#[test]
fn empty_evicted_produces_empty_payload() {
    let messages: Vec<Message> = compaction_input(None, vec![]);
    let payload = serde_json::to_string(&messages).unwrap();
    assert_eq!(payload, "[]");
}

#[test]
fn format_summary_with_empty_parts() {
    assert_eq!(format_summary("", ""), "## \n\n");
}
