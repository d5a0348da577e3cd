use mj_local_llm_hub::domain::{ChatMessage, Conversation};
use mj_local_llm_hub::store::{epoch_seconds_or_zero, now_epoch_seconds, ConversationLog};

fn conversation(id: &str, title: &str, updated: u64) -> Conversation {
    Conversation {
        id: id.into(),
        title: title.into(),
        model: "qwen3".into(),
        messages: vec![],
        updated_at_epoch_seconds: updated,
    }
}

#[test]
fn conversation_round_trip() {
    let mut store = ConversationLog::new();
    store.save(Conversation {
        id: "one".into(),
        title: "테스트".into(),
        model: "qwen3".into(),
        messages: vec![],
        updated_at_epoch_seconds: 1,
    });
    assert_eq!(store.conversations().len(), 1);
    assert!(store.delete("one"));
}

#[test]
fn save_replaces_and_reads_back() {
    let mut store = ConversationLog::new();
    store.save(conversation("a", "first", 1));
    let mut second = conversation("a", "second", 2);
    second.messages.push(ChatMessage { role: "user".into(), content: "hi".into() });
    store.save(second);
    let read = store.get("a").unwrap();
    assert_eq!(read.title, "second");
    assert_eq!(read.messages.len(), 1);
    assert_eq!(store.conversations().len(), 1);
    assert!(store.get("b").is_none());
}

#[test]
fn delete_reports_whether_anything_was_removed() {
    let mut store = ConversationLog::new();
    store.save(conversation("x", "x", 1));
    assert!(!store.delete("y"));
    assert!(store.delete("x"));
    assert!(!store.delete("x"));
    assert!(store.conversations().is_empty());
}

#[test]
fn listing_is_newest_first_then_by_id() {
    let mut store = ConversationLog::new();
    store.save(conversation("c", "c", 5));
    store.save(conversation("a", "a", 5));
    store.save(conversation("b", "b", 9));
    store.save(conversation("d", "d", 1));
    let ids: Vec<String> = store.conversations().into_iter().map(|c| c.id).collect();
    assert_eq!(ids, vec!["b", "a", "c", "d"]);
    let in_id_order: Vec<String> = store.entries().into_iter().map(|c| c.id).collect();
    assert_eq!(in_id_order, vec!["a", "b", "c", "d"]);
}

#[test]
fn ids_sort_like_strings() {
    let mut store = ConversationLog::new();
    for id in ["ab", "a", "가", "B", "b"] {
        store.save(conversation(id, id, 0));
    }
    let ids: Vec<String> = store.entries().into_iter().map(|c| c.id).collect();
    let mut expected = vec!["ab", "a", "가", "B", "b"];
    expected.sort();
    assert_eq!(ids, expected);
}

#[test]
fn clock_reads_seconds_since_epoch() {
    assert_eq!(epoch_seconds_or_zero(None), 0);
    assert_eq!(epoch_seconds_or_zero(Some(17)), 17);
    assert!(now_epoch_seconds() > 1_600_000_000);
}
