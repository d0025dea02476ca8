use tsukkomi::chat::{
    after_compaction, base_prompt, compacted_history, decimal_string, exhausted_message,
    format_section, is_debouncing, needs_compaction, plan_compaction, prepare_images,
    retry_payload, system_prompt, ChatInput, CompactionPlan, ImageData, MessagePayload,
    ParsedResponse, ReplyAttempts, ReplyClock, ReplyStep, Response, ResponsePayload,
};
use tsukkomi::message::Message;
use tsukkomi::media::ImageMediaType;
use tsukkomi::window::BatchedSlidingWindow;

const DEFAULT_PROMPT: &str = "You are a witty chat companion.";

fn prompt_for(
    file: Option<String>,
    inline: Option<String>,
    bot_user_id: &str,
    bot_display_name: &str,
) -> String {
    let base = base_prompt(file, inline, DEFAULT_PROMPT);
    let formats = format_section("{\"input\":1}", "{\"output\":2}");
    system_prompt(base, bot_user_id, bot_display_name, &formats)
}

#[test]
fn system_prompt_contains_bot_identity() {
    let prompt = prompt_for(None, None, "bot123", "TestBot");
    assert!(prompt.contains("bot123"));
    assert!(prompt.contains("TestBot"));
    assert!(prompt.contains("user_id:"));
    assert!(prompt.contains("display_name:"));
}

#[test]
fn system_prompt_uses_custom_prompt_when_provided() {
    let prompt = prompt_for(None, Some("Custom system prompt".into()), "b", "B");
    assert!(prompt.starts_with("Custom system prompt"));
}

#[test]
fn system_prompt_prefers_prompt_file_over_inline_prompt() {
    let prompt = prompt_for(
        Some("From the file".into()),
        Some("Custom system prompt".into()),
        "b",
        "B",
    );
    assert!(prompt.starts_with("From the file"));
    assert!(!prompt.contains("Custom system prompt"));
}

#[test]
fn system_prompt_falls_back_to_default() {
    let prompt = prompt_for(None, None, "b", "B");
    assert!(prompt.starts_with(DEFAULT_PROMPT));
}

#[test]
fn system_prompt_exact_layout() {
    let formats = format_section("IN", "OUT");
    let prompt = system_prompt("BASE".to_string(), "u1", "Name", &formats);
    let expected = format!(
        "BASE\n\n# Your Identity / 你的身份\n\n\
         user_id: u1\n\
         display_name: Name\n\n\
         当用户 @你、回复你（reply_to_user_id 为你自己的 user_id）、\
         或通过名字提到你时，应当优先回应该消息。\n\n\n{}",
        "# Input Format / 输入格式\n\n\
         用户消息以 JSON 格式发送，MessagePayload schema 如下：\nIN\n\n\
         # Output Format / 输出格式\n\n\
         你必须以 JSON 格式回复，ResponsePayload schema 如下（只返回 JSON，不要包含其他文字）：\nOUT"
    );
    assert_eq!(prompt, expected);
}

#[test]
fn system_prompt_contains_input_output_schemas() {
    let input_schema = "{\n  \"title\": \"MessagePayload\"\n}";
    let output_schema = "{\n  \"title\": \"ResponsePayload\"\n}";
    let formats = format_section(input_schema, output_schema);
    let prompt = system_prompt("base".into(), "bot1", "Bot", &formats);
    assert!(prompt.contains(input_schema));
    assert!(prompt.contains(output_schema));
}

#[test]
fn chat_input_builds_correctly() {
    let input = ChatInput {
        user_id: "uid".into(),
        display_name: "name".into(),
        text: Some("text".into()),
        images: vec![],
        sent_at: chrono::Utc::now().timestamp_millis(),
        reply_to_user_id: Some("other".into()),
    };
    assert_eq!(input.user_id, "uid");
    assert_eq!(input.display_name, "name");
    assert_eq!(input.text, Some("text".into()));
    assert!(input.images.is_empty());
    assert_eq!(input.reply_to_user_id, Some("other".into()));
}

#[test]
fn message_payload_from_input_copies_fields() {
    let input = ChatInput {
        user_id: "user1".into(),
        display_name: "User One".into(),
        text: Some("hello world".into()),
        images: vec![],
        sent_at: 0,
        reply_to_user_id: Some("user2".into()),
    };
    let p = MessagePayload::from_input(input, Some("a cat photo".into()), true);
    assert_eq!(p.user_id, "user1");
    assert_eq!(p.display_name, "User One");
    assert_eq!(p.body, "hello world");
    assert_eq!(p.image_descriptions.as_deref(), Some("a cat photo"));
    assert_eq!(p.sent_at, 0);
    assert_eq!(p.reply_to_user_id.as_deref(), Some("user2"));
    assert!(p.debouncing);
}

#[test]
fn message_payload_body_is_empty_without_text() {
    let input = ChatInput {
        user_id: "u".into(),
        display_name: "D".into(),
        text: None,
        images: vec![],
        sent_at: 1_700_000_000_000,
        reply_to_user_id: None,
    };
    let p = MessagePayload::from_input(input, None, false);
    assert_eq!(p.body, "");
    assert!(p.image_descriptions.is_none());
    assert!(p.reply_to_user_id.is_none());
    assert!(!p.debouncing);
    assert_eq!(p.sent_at, 1_700_000_000_000);
}

#[test]
fn debouncing_only_within_the_window() {
    let thirty_s: u128 = 30_000_000_000;
    assert!(!is_debouncing(None, thirty_s));
    assert!(is_debouncing(Some(0), thirty_s));
    assert!(is_debouncing(Some(thirty_s - 1), thirty_s));
    assert!(!is_debouncing(Some(thirty_s), thirty_s));
    assert!(!is_debouncing(Some(0), 0));
}

#[test]
fn retry_payload_carries_the_error() {
    assert_eq!(
        retry_payload("expected value at line 1 column 1"),
        "Your response was not valid JSON. Reply with valid JSON matching the ResponsePayload schema.\nError message: expected value at line 1 column 1"
    );
}

#[test]
fn reply_attempts_stop_after_a_reply() {
    let mut a = ReplyAttempts::new(3);
    assert!(a.may_prompt());
    let step = a.after_answer(ParsedResponse::Reply(Response { text: "hi".into() }));
    match step {
        ReplyStep::Done(Some(r)) => assert_eq!(r.text, "hi"),
        _ => panic!("expected a reply"),
    }
    assert_eq!(a.made(), 1);
}

#[test]
fn reply_attempts_skip_gives_no_reply() {
    let mut a = ReplyAttempts::new(3);
    let step = a.after_answer(ParsedResponse::Skip);
    assert!(matches!(step, ReplyStep::Done(None)));
}

#[test]
fn reply_attempts_are_bounded_by_max_retries() {
    let mut a = ReplyAttempts::new(3);
    let mut prompts = 0;
    while a.may_prompt() {
        prompts += 1;
        match a.after_answer(ParsedResponse::Invalid("bad".into())) {
            ReplyStep::Retry(p) => assert!(p.ends_with("\nError message: bad")),
            ReplyStep::Done(_) => panic!("an invalid answer does not end the turn"),
        }
    }
    assert_eq!(prompts, 3);
    assert_eq!(a.made(), 3);
}

#[test]
fn reply_attempts_with_zero_retries_never_prompt() {
    let a = ReplyAttempts::new(0);
    assert!(!a.may_prompt());
}

#[test]
fn response_payload_variants() {
    let skip = ResponsePayload::Skip;
    let reply = ResponsePayload::Reply(Response { text: "hello".into() });
    assert!(matches!(skip, ResponsePayload::Skip));
    match reply {
        ResponsePayload::Reply(resp) => assert_eq!(resp.text, "hello"),
        _ => panic!("expected Reply variant"),
    }
}

#[test]
fn compaction_is_needed_from_window_plus_batch() {
    let w = BatchedSlidingWindow::new(200, 100);
    assert!(!needs_compaction(&w, 0));
    assert!(!needs_compaction(&w, 299));
    assert!(needs_compaction(&w, 300));
    assert!(needs_compaction(&w, 1000));
}

#[test]
fn compacted_history_starts_with_summary() {
    let got = compacted_history("summary", vec!["a", "b"]);
    assert_eq!(got, vec!["summary", "a", "b"]);
}

#[test]
fn prepare_images_encodes_and_types_each_image() {
    let images = vec![
        ImageData { data: b"hello".to_vec(), media_type: Some("image/png".into()) },
        ImageData { data: vec![], media_type: Some("image/bmp".into()) },
        ImageData { data: vec![0xff], media_type: None },
    ];
    let blocks = prepare_images(&images).unwrap();
    assert_eq!(blocks.len(), 3);
    assert_eq!(blocks[0].data_base64, "aGVsbG8=");
    assert!(blocks[0].media_type == Some(ImageMediaType::PNG));
    assert_eq!(blocks[1].data_base64, "");
    assert!(blocks[1].media_type.is_none());
    assert_eq!(blocks[2].data_base64, "/w==");
    assert!(blocks[2].media_type.is_none());
}

#[test]
fn image_from_download_is_typed_by_its_contents() {
    let png = vec![0x89, b'P', b'N', b'G', 0x0D, 0x0A, 0x1A, 0x0A, 0, 0, 0, 0];
    let img = ImageData::from_download(png.clone());
    assert_eq!(img.data, png);
    assert_eq!(img.media_type.as_deref(), Some("image/png"));
    let unknown = ImageData::from_download(vec![1, 2, 3]);
    assert!(unknown.media_type.is_none());
}

#[test]
fn no_images_means_nothing_to_describe() {
    assert!(prepare_images(&Vec::new()).is_none());
}

#[test]
fn replies_in_a_room_are_spaced_by_the_debounce() {
    let debounce: u128 = 30_000_000_000;
    let mut clock = ReplyClock::new(debounce);
    assert!(!clock.is_debouncing(0));
    let first = clock.deliver(5, Some(Response { text: "one".into() }));
    assert_eq!(first.map(|r| r.text).as_deref(), Some("one"));
    assert!(clock.is_debouncing(5 + debounce - 1));
    let held = clock.deliver(5 + debounce - 1, Some(Response { text: "two".into() }));
    assert!(held.is_none());
    assert!(!clock.is_debouncing(5 + debounce));
    let second = clock.deliver(5 + debounce, Some(Response { text: "three".into() }));
    assert_eq!(second.map(|r| r.text).as_deref(), Some("three"));
    assert!(clock.is_debouncing(5 + debounce));
}

#[test]
fn a_skip_does_not_restart_the_debounce() {
    let mut clock = ReplyClock::new(10);
    assert!(clock.deliver(100, None).is_none());
    assert!(!clock.is_debouncing(100));
}

#[test]
fn short_histories_are_kept_and_long_ones_split() {
    let w = BatchedSlidingWindow::new(4, 2);
    match plan_compaction::<Message>(&w, None) {
        CompactionPlan::Keep(v) => assert!(v.is_empty()),
        _ => panic!("a failed load keeps nothing"),
    }
    let short: Vec<Message> = (0..5).map(|i| Message::user(&i.to_string())).collect();
    match plan_compaction(&w, Some(short)) {
        CompactionPlan::Keep(v) => assert_eq!(v.len(), 5),
        _ => panic!("below window plus batch the history is kept"),
    }
    let long: Vec<Message> = (0..9).map(|i| Message::user(&i.to_string())).collect();
    match plan_compaction(&w, Some(long)) {
        CompactionPlan::Compact { kept, demoted } => {
            assert_eq!(kept.len(), 5);
            assert_eq!(demoted.len(), 4);
        }
        _ => panic!("a long history is compacted"),
    }
}

#[test]
fn compaction_outcome() {
    assert_eq!(after_compaction(vec!["a", "b"], Some("s")), (vec!["s", "a", "b"], true));
    assert_eq!(after_compaction(vec!["a", "b"], None), (vec!["a", "b"], false));
}

#[test]
fn exhausted_retries_error_text() {
    assert_eq!(exhausted_message(3, "room1"), "all 3 retries exhausted for room room1");
    for n in [0u32, 7, 10, 99, 100, 12345, u32::MAX] {
        assert_eq!(decimal_string(n), n.to_string());
    }
}
