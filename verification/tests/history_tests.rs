use ghcopy::history::{History, HistoryEntry};

fn entry(repo: &str, path: &str) -> HistoryEntry {
    HistoryEntry { repo: repo.to_string(), file_path: path.to_string() }
}

fn history_of(pairs: &[(&str, &str)]) -> History {
    History { entries: pairs.iter().map(|(r, p)| entry(r, p)).collect() }
}

#[test]
fn add_entry_to_empty() {
    let mut h = History::empty();
    h.add_entry("alice/tool", "src/a.rs");
    assert_eq!(h.entries.len(), 1);
    assert_eq!(h.entries[0].repo, "alice/tool");
    assert_eq!(h.entries[0].file_path, "src/a.rs");
}

#[test]
fn add_entry_twice_is_idempotent() {
    let mut h = history_of(&[("x/y", "a.txt"), ("u/v", "b.txt")]);
    h.add_entry("alice/tool", "src/a.rs");
    let after_first: Vec<(String, String)> =
        h.entries.iter().map(|e| (e.repo.clone(), e.file_path.clone())).collect();
    h.add_entry("alice/tool", "src/a.rs");
    let after_second: Vec<(String, String)> =
        h.entries.iter().map(|e| (e.repo.clone(), e.file_path.clone())).collect();
    assert_eq!(after_first, after_second);
    assert_eq!(h.entries[0].repo, "alice/tool");
    assert_eq!(h.entries[0].file_path, "src/a.rs");
    assert_eq!(h.entries.len(), 3);
}

#[test]
fn add_entry_moves_duplicate_to_front() {
    let mut h = History::empty();
    h.add_entry("a/a", "1");
    h.add_entry("b/b", "2");
    h.add_entry("a/a", "1");
    assert_eq!(h.entries.len(), 2);
    assert_eq!(h.entries[0].repo, "a/a");
    assert_eq!(h.entries[0].file_path, "1");
    assert_eq!(h.entries[1].repo, "b/b");
}

#[test]
fn add_entry_caps_at_fifty_most_recent() {
    let mut h = History::empty();
    let mut names: Vec<String> = Vec::new();
    for i in 0..55 {
        names.push(format!("owner/repo{}", i));
    }
    for n in &names {
        h.add_entry(n, "f.txt");
    }
    assert_eq!(h.entries.len(), 50);
    // the 50 most recently added, most recent first
    for k in 0..50 {
        assert_eq!(h.entries[k].repo, names[54 - k]);
    }
}

#[test]
fn get_history_items_format_and_order() {
    let h = history_of(&[("alice/tool", "src/a.rs"), ("bob/kit", "lib/m.rs")]);
    let items = h.get_history_items();
    assert_eq!(items, vec!["alice/tool: src/a.rs".to_string(), "bob/kit: lib/m.rs".to_string()]);
}
