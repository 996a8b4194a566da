use ghcopy::errors::ToolError;
use ghcopy::history::{History, HistoryEntry};

fn entry(repo: &str, path: &str) -> HistoryEntry {
    HistoryEntry { repo: repo.to_string(), file_path: path.to_string() }
}

fn pairs(h: &History) -> Vec<(String, String)> {
    h.entries.iter().map(|e| (e.repo.clone(), e.file_path.clone())).collect()
}

#[test]
fn to_text_exact_form() {
    let h = History { entries: vec![entry("alice/tool", "src/a.rs")] };
    assert_eq!(h.to_text(), "{\"entries\":[{\"repo\":\"alice/tool\",\"file_path\":\"src/a.rs\"}]}");
}

#[test]
fn to_text_two_entries_and_escapes() {
    let h = History {
        entries: vec![entry("alice/tool", "src/a.rs"), entry("o\"dd/r", "a\\b\nc")],
    };
    assert_eq!(
        h.to_text(),
        "{\"entries\":[{\"repo\":\"alice/tool\",\"file_path\":\"src/a.rs\"},{\"repo\":\"o\\\"dd/r\",\"file_path\":\"a\\\\b\\nc\"}]}"
    );
}

#[test]
fn to_text_empty() {
    let h = History::empty();
    assert_eq!(h.to_text(), "{\"entries\":[]}");
}

#[test]
fn save_load_round_trip() {
    let h = History {
        entries: vec![
            entry("alice/tool", "src/a.rs"),
            entry("bob/kit", "docs/read me.md"),
            entry("odd\"name/q", "pa\\th\nwith\tescapes"),
        ],
    };
    let text = h.to_text();
    let back = History::parse(&text).expect("rendered history must parse");
    assert_eq!(pairs(&h), pairs(&back));
}

#[test]
fn parse_accepts_whitespace_between_tokens() {
    let text = "{\n  \"entries\": [\n    {\"repo\": \"alice/tool\", \"file_path\": \"src/a.rs\"}\n  ]\n}\n";
    let h = History::parse(text).expect("pretty form must parse");
    assert_eq!(pairs(&h), vec![("alice/tool".to_string(), "src/a.rs".to_string())]);
}

#[test]
fn parse_rejects_garbage() {
    assert_eq!(History::parse("not json").unwrap_err(), ToolError::CorruptHistory);
    assert_eq!(History::parse("").unwrap_err(), ToolError::CorruptHistory);
    assert_eq!(History::parse("{\"entries\":[}").unwrap_err(), ToolError::CorruptHistory);
    assert_eq!(
        History::parse("{\"entries\":[]} trailing").unwrap_err(),
        ToolError::CorruptHistory
    );
    // an entry missing a field is not accepted
    assert_eq!(
        History::parse("{\"entries\":[{\"repo\":\"a/b\"}]}").unwrap_err(),
        ToolError::CorruptHistory
    );
}

#[test]
fn parse_accepts_any_key_order_and_unknown_members() {
    let text = "{\"version\":1,\"entries\":[{\"file_path\":\"src/a.rs\",\"repo\":\"alice/tool\",\"note\":null}],\"extra\":\"x\"}";
    let h = History::parse(text).expect("shape-valid text parses");
    assert_eq!(pairs(&h), vec![("alice/tool".to_string(), "src/a.rs".to_string())]);
}

#[test]
fn parse_decodes_unicode_escapes() {
    let text = "{\"entries\":[{\"repo\":\"a\\u002Fb\",\"file_path\":\"f\"}]}";
    let h = History::parse(text).expect("hex escapes are part of the grammar");
    assert_eq!(h.entries[0].repo, "a/b");
}

#[test]
fn parse_rejects_duplicate_members() {
    assert_eq!(
        History::parse("{\"entries\":[],\"entries\":[]}").unwrap_err(),
        ToolError::CorruptHistory
    );
    assert_eq!(
        History::parse("{\"entries\":[{\"repo\":\"a\",\"repo\":\"b\",\"file_path\":\"f\"}]}")
            .unwrap_err(),
        ToolError::CorruptHistory
    );
}

#[test]
fn from_storage_absent_is_empty_history() {
    let h = History::from_storage(None).expect("absent storage is no error");
    assert!(h.entries.is_empty());
}

#[test]
fn from_storage_present_parses() {
    let h = History::from_storage(Some("{\"entries\":[]}")).expect("valid text parses");
    assert!(h.entries.is_empty());
    assert_eq!(
        History::from_storage(Some("{}")).unwrap_err(),
        ToolError::CorruptHistory
    );
}
