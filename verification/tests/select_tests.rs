use ghcopy::errors::{AbortReason, ToolError};
use ghcopy::history::{History, HistoryEntry};
use ghcopy::select::{
    build_candidates, check_nonempty_files, first_selection, second_selection, FirstChoice,
};
use ghcopy::tree::{build_raw_url, parse_repo_tree};

fn entry(repo: &str, path: &str) -> HistoryEntry {
    HistoryEntry { repo: repo.to_string(), file_path: path.to_string() }
}

#[test]
fn candidates_are_tagged_history_then_bare_repos() {
    let h = History { entries: vec![entry("alice/tool", "src/a.rs")] };
    let repos = vec!["alice/tool".to_string(), "bob/kit".to_string()];
    let c = build_candidates(&h, &repos);
    assert_eq!(
        c,
        vec![
            "[History] alice/tool: src/a.rs".to_string(),
            "alice/tool".to_string(),
            "bob/kit".to_string(),
        ]
    );
}

#[test]
fn empty_first_selection_aborts_without_touching_history() {
    let h = History { entries: vec![entry("alice/tool", "src/a.rs")] };
    let r = first_selection(&h, "");
    assert!(matches!(r, FirstChoice::Aborted));
    // nothing was mutated and nothing asks for a save
    assert_eq!(h.entries.len(), 1);
    assert_eq!(h.entries[0].repo, "alice/tool");
}

#[test]
fn reselected_history_entry_uses_freshly_resolved_branch() {
    let h = History { entries: vec![entry("alice/tool", "src/a.rs")] };
    let r = first_selection(&h, "[History] alice/tool: src/a.rs");
    match r {
        FirstChoice::FromHistory(e) => {
            assert_eq!(e.repo, "alice/tool");
            assert_eq!(e.file_path, "src/a.rs");
            // the branch is resolved at selection time; none is stored
            let url = build_raw_url(&e.repo, "main", &e.file_path);
            assert_eq!(url, "https://raw.githubusercontent.com/alice/tool/main/src/a.rs");
            let renamed = build_raw_url(&e.repo, "trunk", &e.file_path);
            assert_eq!(renamed, "https://raw.githubusercontent.com/alice/tool/trunk/src/a.rs");
        },
        _ => panic!("expected the stored entry"),
    }
}

#[test]
fn tagged_selection_without_match_is_stale() {
    let h = History { entries: vec![entry("alice/tool", "src/a.rs")] };
    let r = first_selection(&h, "[History] other/repo: gone.txt");
    assert!(matches!(r, FirstChoice::Stale));
}

#[test]
fn bare_selection_is_a_repository() {
    let h = History::empty();
    match first_selection(&h, "bob/kit") {
        FirstChoice::FromRepo(name) => assert_eq!(name, "bob/kit"),
        _ => panic!("expected a repository choice"),
    }
}

#[test]
fn second_selection_finds_the_chosen_file() {
    let files = vec![
        ("a.rs".to_string(), "https://raw.githubusercontent.com/o/r/m/a.rs".to_string()),
        ("b.rs".to_string(), "https://raw.githubusercontent.com/o/r/m/b.rs".to_string()),
    ];
    let picked = second_selection(&files, "b.rs").expect("present file");
    assert_eq!(picked.0, "b.rs");
    assert_eq!(picked.1, "https://raw.githubusercontent.com/o/r/m/b.rs");
}

#[test]
fn second_selection_empty_aborts() {
    let files = vec![("a.rs".to_string(), "u".to_string())];
    assert_eq!(
        second_selection(&files, "").unwrap_err(),
        ToolError::Aborted(AbortReason::NoFileSelected)
    );
}

#[test]
fn second_selection_unknown_name_is_a_mismatch() {
    let files = vec![("a.rs".to_string(), "u".to_string())];
    assert_eq!(
        second_selection(&files, "zzz").unwrap_err(),
        ToolError::SelectionMismatch
    );
}

#[test]
fn whole_pipeline_on_values() {
    // a prior run left one entry behind
    let mut history =
        ghcopy::history::History::from_storage(Some(
            "{\"entries\":[{\"repo\":\"bob/kit\",\"file_path\":\"old.rs\"}]}",
        )).expect("stored text parses");
    let repos = vec!["alice/tool".to_string(), "bob/kit".to_string()];
    let candidates = build_candidates(&history, &repos);
    assert_eq!(candidates[0], "[History] bob/kit: old.rs");
    // the user picks a fresh repository this time
    let repo = match first_selection(&history, &candidates[1]) {
        FirstChoice::FromRepo(r) => r,
        _ => panic!("expected a repository choice"),
    };
    let contents = "{\"tree\":[{\"path\":\"src/a.rs\",\"type\":\"blob\"},{\"path\":\"src\",\"type\":\"tree\"}]}";
    let files = parse_repo_tree(contents, &repo, "main").expect("well-formed tree");
    check_nonempty_files(&files).expect("one file resolved");
    let (name, url) = second_selection(&files, "src/a.rs").expect("present file");
    assert_eq!(url, "https://raw.githubusercontent.com/alice/tool/main/src/a.rs");
    // after the transfer the pair is remembered and persisted
    history.add_entry(&repo, &name);
    let text = history.to_text();
    let reloaded = ghcopy::history::History::parse(&text).expect("written text parses");
    let items = reloaded.get_history_items();
    assert_eq!(items, vec!["alice/tool: src/a.rs".to_string(), "bob/kit: old.rs".to_string()]);
}

#[test]
fn empty_repository_aborts() {
    let none: Vec<(String, String)> = Vec::new();
    assert_eq!(
        check_nonempty_files(&none).unwrap_err(),
        ToolError::Aborted(AbortReason::EmptyRepository)
    );
    let some = vec![("a".to_string(), "u".to_string())];
    assert!(check_nonempty_files(&some).is_ok());
}
