use tsukkomi::message::{ConversationItem, Message};
use tsukkomi::window::BatchedSlidingWindow;

fn user_text(text: &str) -> Message {
    Message::user(text)
}

fn texts(msgs: &[Message]) -> Vec<String> {
    msgs.iter()
        .map(|m| match m {
            Message::User { content } => match &content[0] {
                tsukkomi::message::UserContent::Text(t) => t.clone(),
                tsukkomi::message::UserContent::ToolResult { content, .. } => content.clone(),
            },
            Message::System { content } => content.clone(),
            Message::Assistant { content } => content.clone(),
        })
        .collect()
}

#[test]
fn window_under_limit_returns_all() {
    let w = BatchedSlidingWindow::new(10, 5);
    let msgs: Vec<Message> = (0..8).map(|i| user_text(&i.to_string())).collect();
    let (kept, demoted) = w.apply_with_demoted(msgs);
    assert_eq!(kept.len(), 8);
    assert!(demoted.is_empty());
}

#[test]
fn window_exact_limit_returns_all() {
    let w = BatchedSlidingWindow::new(10, 5);
    let msgs: Vec<Message> = (0..10).map(|i| user_text(&i.to_string())).collect();
    let (kept, demoted) = w.apply_with_demoted(msgs);
    assert_eq!(kept.len(), 10);
    assert!(demoted.is_empty());
}

#[test]
fn window_exceeds_by_one_batch() {
    let w = BatchedSlidingWindow::new(10, 5);
    let msgs: Vec<Message> = (0..15).map(|i| user_text(&i.to_string())).collect();
    let (kept, demoted) = w.apply_with_demoted(msgs);
    assert_eq!(kept.len(), 10);
    assert_eq!(demoted.len(), 5);
}

#[test]
fn window_exceeds_by_less_than_batch_returns_all() {
    let w = BatchedSlidingWindow::new(10, 5);
    let msgs: Vec<Message> = (0..12).map(|i| user_text(&i.to_string())).collect();
    let (kept, demoted) = w.apply_with_demoted(msgs);
    assert_eq!(kept.len(), 12);
    assert!(demoted.is_empty());
}

#[test]
fn window_exceeds_by_two_batches() {
    let w = BatchedSlidingWindow::new(10, 5);
    let msgs: Vec<Message> = (0..20).map(|i| user_text(&i.to_string())).collect();
    let (kept, demoted) = w.apply_with_demoted(msgs);
    assert_eq!(kept.len(), 10);
    assert_eq!(demoted.len(), 10);
}

#[test]
fn window_empty_returns_empty() {
    let w = BatchedSlidingWindow::new(10, 5);
    let msgs: Vec<Message> = Vec::new();
    let (kept, demoted) = w.apply_with_demoted(msgs);
    assert!(kept.is_empty());
    assert!(demoted.is_empty());
}

#[test]
fn apply_keeps_window_size_only() {
    let w = BatchedSlidingWindow::new(10, 5);
    let msgs: Vec<Message> = (0..15).map(|i| user_text(&i.to_string())).collect();
    let kept = w.apply(msgs);
    assert_eq!(kept.len(), 10);
}

#[test]
fn orphan_tool_result_is_demoted_with_its_batch() {
    let w = BatchedSlidingWindow::new(5, 5);
    let mut msgs: Vec<Message> = (0..5).map(|i| user_text(&i.to_string())).collect();
    // A tool result right after the demotion boundary.
    msgs.push(Message::tool_result("tool_1", "result"));
    msgs.push(user_text("6"));
    msgs.push(user_text("7"));
    msgs.push(user_text("8"));
    msgs.push(user_text("9"));

    let total = msgs.len();
    assert_eq!(total, 10);

    let (kept, demoted) = w.apply_with_demoted(msgs);
    // window=5, batch=5: excess=5, demote_count=5, plus the orphan tool result.
    assert_eq!(demoted.len(), 6);
    assert_eq!(kept.len(), 4);
}

#[test]
fn window_uses_batch_size_for_demotion_granularity() {
    let w = BatchedSlidingWindow::new(10, 3);
    // 14 messages: excess = 4, demote_count = 3 (only full batch)
    let msgs: Vec<Message> = (0..14).map(|i| user_text(&i.to_string())).collect();
    let (kept, demoted) = w.apply_with_demoted(msgs);
    assert_eq!(demoted.len(), 3);
    assert_eq!(kept.len(), 11);
}

#[test]
fn window_demotes_oldest_first_and_keeps_order() {
    let w = BatchedSlidingWindow::new(4, 2);
    let msgs: Vec<Message> = (0..9).map(|i| user_text(&i.to_string())).collect();
    let (kept, demoted) = w.apply_with_demoted(msgs);
    // excess 5, two batches of 2 demoted
    assert_eq!(texts(&demoted), vec!["0", "1", "2", "3"]);
    assert_eq!(texts(&kept), vec!["4", "5", "6", "7", "8"]);
}

#[test]
fn tool_result_at_front_of_window_is_kept_when_nothing_is_demoted() {
    let w = BatchedSlidingWindow::new(5, 5);
    let mut msgs: Vec<Message> = vec![Message::tool_result("t", "r")];
    msgs.push(user_text("1"));
    let (kept, demoted) = w.apply_with_demoted(msgs);
    assert_eq!(kept.len(), 2);
    assert!(demoted.is_empty());
}

#[test]
fn demote_count_is_whole_batches_of_the_excess() {
    let w = BatchedSlidingWindow::new(10, 3);
    assert_eq!(w.demote_count(0), 0);
    assert_eq!(w.demote_count(10), 0);
    assert_eq!(w.demote_count(12), 0);
    assert_eq!(w.demote_count(13), 3);
    assert_eq!(w.demote_count(19), 9);
    assert_eq!(w.window_size(), 10);
    assert_eq!(w.batch_size(), 3);
}

#[test]
fn message_kinds() {
    assert!(Message::tool_result("a", "b").is_tool_result());
    assert!(!Message::user("a").is_tool_result());
    assert!(!Message::system("a").is_tool_result());
    assert!(!Message::assistant("a").is_tool_result());
    assert!(!Message::User { content: vec![] }.is_tool_result());
}

#[test]
fn window_applied_twice_keeps_everything_the_second_time() {
    let w = BatchedSlidingWindow::new(10, 3);
    let msgs: Vec<Message> = (0..29).map(|i| user_text(&i.to_string())).collect();
    let kept = w.apply(msgs);
    let before = texts(&kept);
    let (again, demoted) = w.apply_with_demoted(kept);
    assert!(demoted.is_empty());
    assert_eq!(texts(&again), before);
}

#[test]
fn demoted_then_kept_is_the_input() {
    let w = BatchedSlidingWindow::new(3, 2);
    let mut msgs: Vec<Message> = (0..4).map(|i| user_text(&i.to_string())).collect();
    msgs.push(Message::tool_result("t", "4"));
    msgs.push(user_text("5"));
    msgs.push(user_text("6"));
    let all = texts(&msgs);
    let (kept, demoted) = w.apply_with_demoted(msgs);
    let mut joined = texts(&demoted);
    joined.extend(texts(&kept));
    assert_eq!(joined, all);
    assert_eq!(texts(&demoted), vec!["0", "1", "2", "3", "4"]);
}
