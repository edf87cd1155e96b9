use std::collections::BTreeMap;
use tiptab::messages::{pending_renames_from_payload, read_rename, rename_payload, renames_payload};
use tiptab::worker::RenameWorker;

#[test]
fn rename_payload_is_json_pair() {
    assert_eq!(rename_payload(3, &"1: vim".to_string()), "[3,\"1: vim\"]");
    assert_eq!(rename_payload(0, &"a\"b".to_string()), "[0,\"a\\\"b\"]");
}

#[test]
fn renames_payload_is_json_object() {
    let m: BTreeMap<u64, String> = [(2u64, "b".to_string()), (1, "a".to_string())].into_iter().collect();
    assert_eq!(renames_payload(&m), "{\"1\":\"a\",\"2\":\"b\"}");
    assert_eq!(renames_payload(&BTreeMap::new()), "{}");
}

#[test]
fn read_rename_parses_pairs() {
    assert_eq!(read_rename("[3,\"x\"]"), Some((3, "x".to_string())));
    assert_eq!(read_rename(" [ 7 , \"a b\" ] "), Some((7, "a b".to_string())));
    assert_eq!(read_rename("[3]"), None);
    assert_eq!(read_rename("{\"3\":\"x\"}"), None);
    assert_eq!(read_rename(""), None);
}

#[test]
fn pending_renames_sorted_by_tab() {
    assert_eq!(
        pending_renames_from_payload("{\"20\":\"b\",\"3\":\"a\"}"),
        vec![(3, "a".to_string()), (20, "b".to_string())]
    );
    assert!(pending_renames_from_payload("").is_empty());
    assert!(pending_renames_from_payload("[1,\"x\"]").is_empty());
    assert!(pending_renames_from_payload("{}").is_empty());
}

#[test]
fn worker_queues_then_executes() {
    let mut w = RenameWorker::new();
    assert_eq!(w.on_message("queue-rename", &rename_payload(4, &"5: *vim".to_string())), None);
    assert_eq!(w.on_message("queue-rename", "[2,\"3: top\"]"), None);
    assert_eq!(w.on_message("queue-rename", "[4,\"5: *nvim\"]"), None);
    assert_eq!(w.on_message("queue-rename", "not json"), None);
    assert_eq!(w.pending().len(), 2);
    let out = w.on_message("execute-renames", "").unwrap();
    assert_eq!(out, "{\"2\":\"3: top\",\"4\":\"5: *nvim\"}");
    assert!(w.pending().is_empty());
    assert_eq!(
        pending_renames_from_payload(&out),
        vec![(2, "3: top".to_string()), (4, "5: *nvim".to_string())]
    );
    assert_eq!(w.on_message("execute-renames", ""), Some("{}".to_string()));
}

#[test]
fn worker_ignores_other_messages() {
    let mut w = RenameWorker::default();
    w.queue(Some((1, "a".to_string())));
    assert_eq!(w.on_message("something", "[9,\"z\"]"), None);
    assert_eq!(w.pending().len(), 1);
    let kept = RenameWorker::from_pending(w.pending().clone());
    assert_eq!(kept.pending(), w.pending());
}

#[test]
fn payloads_read_back() {
    for (id, name) in [(0u64, ""), (u64::MAX, "a\"b\\c\n\u{1}"), (42, "3: *nvim ☃")] {
        let text = rename_payload(id, &name.to_string());
        assert_eq!(read_rename(&text), Some((id, name.to_string())));
    }
    let m: BTreeMap<u64, String> =
        [(u64::MAX, "x\ty".to_string()), (0, "\"q\"".to_string()), (9, String::new())].into_iter().collect();
    let back = pending_renames_from_payload(&renames_payload(&m));
    assert_eq!(back, m.into_iter().collect::<Vec<_>>());
}
