use tsukkomi::memory::file::FileMemory;
use tsukkomi::memory::jsonl::{append_records, count_records, frame_records, split_records};
use tsukkomi::memory::map::MemoryMap;
use tsukkomi::memory::remembering::{memory_preamble, with_preamble};
use tsukkomi::memory::store::{Forget, Memory, MemoryStore, Remember};

fn records(items: &[&str]) -> Vec<Vec<u8>> {
    items.iter().map(|s| s.as_bytes().to_vec()).collect()
}

fn lines(content: &[u8]) -> Vec<String> {
    split_records(content)
        .into_iter()
        .map(|l| String::from_utf8(l).unwrap())
        .collect()
}

#[test]
fn load_missing_returns_empty() {
    assert!(split_records(b"").is_empty());
    assert_eq!(count_records(b""), 0);
}

#[test]
fn append_and_load_roundtrip() {
    let file = append_records(Vec::new(), &records(&["{\"a\":\"hello\"}", "{\"a\":\"world\"}"]));
    assert_eq!(lines(&file), vec!["{\"a\":\"hello\"}", "{\"a\":\"world\"}"]);
    assert_eq!(count_records(&file), 2);
}

#[test]
fn append_keeps_earlier_records() {
    let file = append_records(Vec::new(), &records(&["old"]));
    let file = append_records(file, &records(&["x", "y"]));
    assert_eq!(file, b"old\nx\ny\n".to_vec());
    assert_eq!(lines(&file), vec!["old", "x", "y"]);
}

#[test]
fn replace_all_overwrites() {
    let _old = append_records(Vec::new(), &records(&["old"]));
    let file = frame_records(&records(&["new"]));
    assert_eq!(lines(&file), vec!["new"]);
}

#[test]
fn count_returns_line_count() {
    let file = frame_records(&records(&["a", "b"]));
    assert_eq!(count_records(&file), 2);
}

#[test]
fn lines_split_like_str_lines() {
    let cases: [&str; 8] = ["", "a", "a\n", "a\nb", "a\r\nb\r\n", "\n\n", "a\r", "x\n\ny\r"];
    for c in cases {
        let expected: Vec<String> = c.lines().map(|l| l.to_string()).collect();
        assert_eq!(lines(c.as_bytes()), expected, "content {:?}", c);
        assert_eq!(count_records(c.as_bytes()), expected.len());
    }
}

fn mem(s: &str) -> Memory {
    Memory { summary: s.to_string() }
}

fn summary_of(m: &MemoryMap<Memory>, key: &str) -> Option<String> {
    m.get(key).map(|x| x.summary.clone())
}

#[test]
fn remember_and_list_roundtrip() {
    let mut m = MemoryMap::new();
    m.insert("mood".to_string(), mem("feeling happy"));
    assert_eq!(m.len(), 1);
    assert_eq!(summary_of(&m, "mood").as_deref(), Some("feeling happy"));
}

#[test]
fn remember_multiple_keys() {
    let mut m = MemoryMap::new();
    m.insert("topic".to_string(), mem("rust"));
    m.insert("mood".to_string(), mem("tired"));
    assert_eq!(m.len(), 2);
}

#[test]
fn forget_removes_key() {
    let mut m = MemoryMap::new();
    m.insert("key1".to_string(), mem("val1"));
    m.insert("key2".to_string(), mem("val2"));
    let gone = m.remove("key1");
    assert_eq!(gone.map(|g| g.summary).as_deref(), Some("val1"));
    assert_eq!(m.len(), 1);
    assert!(m.get("key1").is_none());
    assert!(m.get("key2").is_some());
    assert!(m.remove("key1").is_none());
}

#[test]
fn remember_updates_existing_key() {
    let mut m = MemoryMap::new();
    m.insert("note".to_string(), mem("old"));
    m.insert("note".to_string(), mem("new"));
    assert_eq!(m.len(), 1);
    assert_eq!(summary_of(&m, "note").as_deref(), Some("new"));
}

#[test]
fn from_pairs_last_wins() {
    let m = MemoryMap::from_pairs(vec![
        ("a".to_string(), mem("1")),
        ("b".to_string(), mem("2")),
        ("a".to_string(), mem("3")),
    ]);
    assert_eq!(m.len(), 2);
    assert_eq!(summary_of(&m, "a").as_deref(), Some("3"));
    assert_eq!(summary_of(&m, "b").as_deref(), Some("2"));
    assert!(!m.is_empty());
    assert!(MemoryMap::<Memory>::new().is_empty());
}

#[test]
fn preamble_lists_memories_in_order() {
    let mut m = MemoryMap::new();
    assert!(memory_preamble(&m).is_none());
    m.insert("mood".to_string(), mem("happy"));
    assert_eq!(memory_preamble(&m).as_deref(), Some("长期记忆：\n- mood: happy"));
    m.insert("topic".to_string(), mem("rust"));
    assert_eq!(
        memory_preamble(&m).as_deref(),
        Some("长期记忆：\n- mood: happy\n- topic: rust")
    );
}

#[test]
fn preamble_goes_first() {
    assert_eq!(with_preamble(vec!["a", "b"], Some("p")), vec!["p", "a", "b"]);
    assert_eq!(with_preamble(vec!["a", "b"], None), vec!["a", "b"]);
}

#[test]
fn rooms_are_isolated() {
    let store = MemoryStore::new("/data/memory".to_string());
    assert_eq!(store.path("room_x"), "/data/memory/room_x_memories.json");
    assert_ne!(store.path("room_x"), store.path("room_y"));
    assert_eq!(MemoryStore::file_name("room_y"), "room_y_memories.json");
}

#[test]
fn multiple_rooms_are_isolated() {
    let files = FileMemory::new("memory".to_string());
    assert_eq!(files.path("room_x"), "memory/room_x.jsonl");
    assert_ne!(files.path("room_x"), files.path("room_y"));
    assert_eq!(files.path("/abs/room"), "/abs/room.jsonl");
}

#[test]
fn appending_file_memory_paths() {
    let files = tsukkomi::memory::FileMemory::new("memory".to_string());
    assert_eq!(files.path("room_a"), "memory/room_a.jsonl");
}

#[test]
fn lockfile_store_paths() {
    let store = tsukkomi::store::MemoryStore::new("mem".to_string());
    assert_eq!(store.path("r1"), "mem/r1_memories.json");
    assert_eq!(store.lock_path("r1"), "mem/r1_memories.lock");
}

#[test]
fn tool_confirmations() {
    assert_eq!(Remember::confirmation("mood"), "已记住：mood");
    assert_eq!(Forget::confirmation("mood"), "已删除：mood");
    assert_eq!(tsukkomi::store::Remember::confirmation("k"), "已记住：k");
    assert_eq!(tsukkomi::store::Forget::confirmation("k"), "已删除：k");
}

#[test]
fn forget_after_remember_restores_the_map() {
    let mut m = MemoryMap::new();
    m.insert("a".to_string(), mem("1"));
    m.insert("b".to_string(), mem("2"));
    let before = memory_preamble(&m);
    m.insert("c".to_string(), mem("3"));
    m.remove("c");
    assert_eq!(memory_preamble(&m), before);
    assert_eq!(m.len(), 2);
}

#[test]
fn paths_under_any_base_directory() {
    assert_eq!(FileMemory::new("memory/".to_string()).path("room"), "memory/room.jsonl");
    assert_eq!(FileMemory::new(String::new()).path("room"), "room.jsonl");
    assert_eq!(MemoryStore::new("/".to_string()).path("r"), "/r_memories.json");
    assert_eq!(
        tsukkomi::store::MemoryStore::new("mem/".to_string()).lock_path("r"),
        "mem/r_memories.lock"
    );
}
