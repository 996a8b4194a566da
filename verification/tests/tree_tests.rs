use ghcopy::errors::ToolError;
use ghcopy::tree::{build_raw_url, parse_repo_tree};

#[test]
fn resolves_blobs_only_with_exact_urls() {
    let contents = "{\"tree\":[{\"path\":\"src/a.rs\",\"type\":\"blob\"},{\"path\":\"src\",\"type\":\"tree\"}]}";
    let files = parse_repo_tree(contents, "alice/tool", "main").expect("well-formed tree");
    assert_eq!(
        files,
        vec![(
            "src/a.rs".to_string(),
            "https://raw.githubusercontent.com/alice/tool/main/src/a.rs".to_string()
        )]
    );
}

#[test]
fn keeps_blob_order_and_skips_other_node_kinds() {
    let contents = "{\"tree\":[\
        {\"path\":\"b.txt\",\"type\":\"blob\"},\
        {\"path\":\"dir\",\"type\":\"tree\"},\
        {\"path\":\"a.txt\",\"type\":\"blob\"},\
        {\"path\":\"link\",\"type\":\"commit\"},\
        {\"path\":\"z/c.txt\",\"type\":\"blob\"}]}";
    let files = parse_repo_tree(contents, "o/r", "dev").expect("well-formed tree");
    let names: Vec<String> = files.iter().map(|(n, _)| n.clone()).collect();
    assert_eq!(names, vec!["b.txt", "a.txt", "z/c.txt"]);
    assert_eq!(files[1].1, "https://raw.githubusercontent.com/o/r/dev/a.txt");
}

#[test]
fn tolerates_unknown_members_and_whitespace() {
    let contents = "{\n  \"sha\": \"abc123\",\n  \"url\": \"https://example.invalid/x\",\n  \"tree\": [\n    {\n      \"path\": \"f.rs\",\n      \"mode\": \"100644\",\n      \"type\": \"blob\",\n      \"sha\": \"def\",\n      \"size\": 1234,\n      \"url\": \"https://example.invalid/y\"\n    }\n  ],\n  \"truncated\": false\n}\n";
    let files = parse_repo_tree(contents, "alice/tool", "main").expect("real shape parses");
    assert_eq!(
        files,
        vec![(
            "f.rs".to_string(),
            "https://raw.githubusercontent.com/alice/tool/main/f.rs".to_string()
        )]
    );
}

#[test]
fn skips_nested_unknown_values() {
    let contents = "{\"meta\":{\"a\":[1,2,{\"b\":null,\"c\":[true,false]}],\"d\":\"x\"},\"tree\":[{\"path\":\"m.rs\",\"type\":\"blob\",\"extra\":{\"deep\":[{},[]]}}]}";
    let files = parse_repo_tree(contents, "o/r", "main").expect("nested unknowns are skipped");
    assert_eq!(
        files,
        vec![("m.rs".to_string(), "https://raw.githubusercontent.com/o/r/main/m.rs".to_string())]
    );
}

#[test]
fn empty_tree_resolves_to_no_files() {
    let files = parse_repo_tree("{\"tree\":[]}", "o/r", "main").expect("empty tree parses");
    assert!(files.is_empty());
}

#[test]
fn malformed_responses_are_rejected() {
    assert_eq!(
        parse_repo_tree("not json", "o/r", "main").unwrap_err(),
        ToolError::MalformedResponse
    );
    // no tree member
    assert_eq!(
        parse_repo_tree("{\"sha\":\"abc\"}", "o/r", "main").unwrap_err(),
        ToolError::MalformedResponse
    );
    // an entry without a path
    assert_eq!(
        parse_repo_tree("{\"tree\":[{\"type\":\"blob\"}]}", "o/r", "main").unwrap_err(),
        ToolError::MalformedResponse
    );
    // a tree member that is not an array
    assert_eq!(
        parse_repo_tree("{\"tree\":3}", "o/r", "main").unwrap_err(),
        ToolError::MalformedResponse
    );
}

#[test]
fn duplicate_fields_are_rejected() {
    // two tree members
    assert_eq!(
        parse_repo_tree("{\"tree\":[],\"tree\":[]}", "o/r", "main").unwrap_err(),
        ToolError::MalformedResponse
    );
    // two path keys in one entry
    assert_eq!(
        parse_repo_tree(
            "{\"tree\":[{\"path\":\"a\",\"path\":\"b\",\"type\":\"blob\"}]}",
            "o/r",
            "main"
        )
        .unwrap_err(),
        ToolError::MalformedResponse
    );
}

#[test]
fn unicode_escapes_are_decoded() {
    let files = parse_repo_tree(
        "{\"tree\":[{\"path\":\"a\\u0062c\",\"type\":\"blob\"}]}",
        "o/r",
        "main",
    )
    .expect("hex escapes are part of the grammar");
    assert_eq!(files[0].0, "abc");
    assert_eq!(files[0].1, "https://raw.githubusercontent.com/o/r/main/abc");
}

#[test]
fn surrogate_pairs_are_decoded() {
    let files = parse_repo_tree(
        "{\"tree\":[{\"path\":\"x\\uD83D\\uDE00y\",\"type\":\"blob\"}]}",
        "o/r",
        "main",
    )
    .expect("a surrogate pair is one character");
    assert_eq!(files[0].0, "x\u{1F600}y");
}

#[test]
fn bad_escapes_are_rejected() {
    // an unknown short escape
    assert_eq!(
        parse_repo_tree("{\"tree\":[{\"path\":\"a\\qb\",\"type\":\"blob\"}]}", "o/r", "main")
            .unwrap_err(),
        ToolError::MalformedResponse
    );
    // a lone leading surrogate
    assert_eq!(
        parse_repo_tree("{\"tree\":[{\"path\":\"\\uD83D\",\"type\":\"blob\"}]}", "o/r", "main")
            .unwrap_err(),
        ToolError::MalformedResponse
    );
    // a lone trailing surrogate
    assert_eq!(
        parse_repo_tree("{\"tree\":[{\"path\":\"\\uDE00\",\"type\":\"blob\"}]}", "o/r", "main")
            .unwrap_err(),
        ToolError::MalformedResponse
    );
}

#[test]
fn trailing_commas_are_rejected() {
    assert_eq!(
        parse_repo_tree("{\"tree\":[],}", "o/r", "main").unwrap_err(),
        ToolError::MalformedResponse
    );
    assert_eq!(
        parse_repo_tree("{\"tree\":[{\"path\":\"a\",\"type\":\"blob\",}]}", "o/r", "main")
            .unwrap_err(),
        ToolError::MalformedResponse
    );
    assert_eq!(
        parse_repo_tree("{\"tree\":[{\"path\":\"a\",\"type\":\"blob\"},]}", "o/r", "main")
            .unwrap_err(),
        ToolError::MalformedResponse
    );
    // inside a skipped member too
    assert_eq!(
        parse_repo_tree("{\"meta\":[1,],\"tree\":[]}", "o/r", "main").unwrap_err(),
        ToolError::MalformedResponse
    );
}

#[test]
fn malformed_numbers_are_rejected() {
    // a bare minus in a skipped member
    assert_eq!(
        parse_repo_tree("{\"meta\":-,\"tree\":[]}", "o/r", "main").unwrap_err(),
        ToolError::MalformedResponse
    );
    // a leading zero
    assert_eq!(
        parse_repo_tree("{\"meta\":01,\"tree\":[]}", "o/r", "main").unwrap_err(),
        ToolError::MalformedResponse
    );
    // well-formed numbers pass
    let files = parse_repo_tree(
        "{\"a\":-1.25e+3,\"b\":0,\"c\":10.5,\"tree\":[]}",
        "o/r",
        "main",
    )
    .expect("JSON numbers are skipped");
    assert!(files.is_empty());
}

#[test]
fn build_raw_url_exact_form() {
    assert_eq!(
        build_raw_url("alice/tool", "main", "src/a.rs"),
        "https://raw.githubusercontent.com/alice/tool/main/src/a.rs"
    );
}
