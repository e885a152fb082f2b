use claude_tools::audit::{
    audit, classify, extract_deps, is_rust_source_name, render_human, search_dep, strip_comments,
    AuditRequest, Confidence,
};
use claude_tools::error::ToolError;

fn request(manifest_text: &str, files: &[&str]) -> AuditRequest {
    AuditRequest {
        manifest: "Cargo.toml".to_string(),
        manifest_text: manifest_text.to_string(),
        src: "src".to_string(),
        extra_dirs: vec![],
        files: files.iter().map(|f| f.to_string()).collect(),
    }
}

#[test]
fn strip_comments_removes_line_and_block() {
    let s = "use foo; // use bar\n/* use baz */\nfoo::do_it();";
    let stripped = strip_comments(s);
    assert!(stripped.contains("use foo"));
    assert!(!stripped.contains("use bar"));
    assert!(!stripped.contains("use baz"));
    assert!(stripped.contains("foo::do_it"));
}

#[test]
fn search_dep_finds_use_and_path_qualified() {
    let files = vec!["use foo;\nfoo::do_it();".to_string(), "// use bar in a comment".to_string()];
    let (clean, total) = search_dep("foo", &files).unwrap();
    assert_eq!(clean, 2);
    assert_eq!(total, 2);
    let (clean_bar, total_bar) = search_dep("bar", &files).unwrap();
    assert_eq!(clean_bar, 0);
    assert_eq!(total_bar, 1, "comment-only match");
}

#[test]
fn search_dep_dash_becomes_underscore() {
    let files = vec!["use serde_json;\n".to_string()];
    let (clean, _) = search_dep("serde_json", &files).unwrap();
    assert_eq!(clean, 1);
}

#[test]
fn extract_deps_picks_top_level_only() {
    let manifest = r#"
[package]
name = "test"
version = "0.0.0"
[dependencies]
foo = "1"
bar = { version = "2" }
[dev-dependencies]
qux = "3"
[features]
"#;
    let deps = extract_deps(manifest).unwrap();
    assert!(deps.contains(&"foo".to_string()));
    assert!(deps.contains(&"bar".to_string()));
    assert!(!deps.contains(&"qux".to_string()), "dev-deps excluded");
}

#[test]
fn audit_end_to_end_flags_unused() {
    let req = request(
        "[package]\nname=\"x\"\nversion=\"0.0.0\"\n[dependencies]\nfoo=\"1\"\nbar=\"1\"\n",
        &["use foo;\n"],
    );
    let r = audit(&req).unwrap();
    assert_eq!(r.total_deps, 2);
    assert_eq!(r.candidates.len(), 1);
    assert_eq!(r.candidates[0].name, "bar");
    assert_eq!(r.candidates[0].confidence.label(), "high");
}

#[test]
fn audit_medium_when_only_comments_mention_dep() {
    let req = request(
        "[dependencies]\nfoo-bar = \"1\"\nbaz = \"1\"\n",
        &["// foo_bar::thing is gone\nuse baz;\n/* use foo_bar; */\n"],
    );
    let r = audit(&req).unwrap();
    assert_eq!(r.total_deps, 2);
    assert_eq!(r.candidates.len(), 1);
    assert_eq!(r.candidates[0].name, "foo-bar");
    assert_eq!(r.candidates[0].confidence, Confidence::Medium);
    assert_eq!(
        r.candidates[0].rationale,
        "0 matches in code; 2 matches inside comments — verify before removing (might be reference in doc-string)."
    );
}

#[test]
fn audit_high_rationale_names_underscored_dep() {
    let req = request("[dependencies]\nserde-json = \"1\"\n", &["fn main() {}\n"]);
    let r = audit(&req).unwrap();
    assert_eq!(r.candidates.len(), 1);
    assert_eq!(
        r.candidates[0].rationale,
        "0 matches in any .rs file (use serde_json|serde_json::) — strong removal candidate."
    );
}

#[test]
fn audit_keeps_manifest_order_and_scanned_dirs() {
    let mut req = request("[dependencies]\nzeta = \"1\"\nalpha = \"1\"\nmid = \"1\"\n", &["mid::go();"]);
    req.extra_dirs = vec!["bin".to_string(), "examples".to_string()];
    let r = audit(&req).unwrap();
    assert_eq!(r.manifest, "Cargo.toml");
    assert_eq!(r.scanned_dirs, vec!["src", "bin", "examples"]);
    let names: Vec<&str> = r.candidates.iter().map(|c| c.name.as_str()).collect();
    assert_eq!(names, vec!["zeta", "alpha"]);
}

#[test]
fn audit_with_no_dependency_table() {
    let req = request("[package]\nname = \"x\"\n", &[]);
    let r = audit(&req).unwrap();
    assert_eq!(r.total_deps, 0);
    assert!(r.candidates.is_empty());
}

#[test]
fn audit_inline_dependency_table_is_not_read() {
    let req = request("dependencies = { foo = \"1\" }\n", &[]);
    let r = audit(&req).unwrap();
    assert_eq!(r.total_deps, 0);
}

#[test]
fn audit_rejects_broken_manifest() {
    let req = request("[dependencies\nfoo = ", &[]);
    assert!(matches!(audit(&req), Err(ToolError::Manifest(_))));
    assert!(matches!(extract_deps("= nope"), Err(ToolError::Manifest(_))));
}

#[test]
fn search_dep_escapes_meta_characters() {
    let files = vec!["use axb;\naxb::go();".to_string()];
    assert_eq!(search_dep("a.b", &files).unwrap(), (0, 0));
    let files = vec!["use a.b;".to_string()];
    assert_eq!(search_dep("a.b", &files).unwrap(), (1, 1));
}

#[test]
fn search_dep_needs_word_boundaries() {
    let files = vec!["use foobar;\nmyfoo::x();\nfoo ::y();".to_string()];
    assert_eq!(search_dep("foo", &files).unwrap(), (1, 1));
}

#[test]
fn search_dep_over_no_files() {
    assert_eq!(search_dep("foo", &vec![]).unwrap(), (0, 0));
}

#[test]
fn strip_comments_keeps_code_and_spans_lines() {
    assert_eq!(strip_comments("a /* x\ny */ b // c\nd"), "a  b \nd");
    assert_eq!(strip_comments("no comments here"), "no comments here");
}

#[test]
fn rust_source_names() {
    assert!(is_rust_source_name("main.rs"));
    assert!(is_rust_source_name("a.b.rs"));
    assert!(is_rust_source_name("..rs"));
    assert!(!is_rust_source_name(".rs"));
    assert!(!is_rust_source_name("main.rs.bak"));
    assert!(!is_rust_source_name("rs"));
    assert!(!is_rust_source_name("main.RS"));
}

#[test]
fn human_report_lists_candidates() {
    let req = request("[dependencies]\nfoo = \"1\"\nbar = \"1\"\n", &["use foo;\n"]);
    let r = audit(&req).unwrap();
    let text = render_human(&r);
    assert_eq!(
        text,
        "audit-unused-dep report\n  manifest: Cargo.toml\n  scanned:  src\n  total direct deps: 2\n  candidates: 1\n    [high] bar\n        0 matches in any .rs file (use bar|bar::) — strong removal candidate.\n"
    );
}

#[test]
fn human_report_when_clean() {
    let mut req = request("[dependencies]\nfoo = \"1\"\n", &["use foo;\n"]);
    req.extra_dirs = vec!["bin".to_string()];
    let r = audit(&req).unwrap();
    let text = render_human(&r);
    assert_eq!(
        text,
        "audit-unused-dep report\n  manifest: Cargo.toml\n  scanned:  src, bin\n  total direct deps: 1\n  candidates: 0\n  clean — no unused-dep candidates found.\n"
    );
}

#[test]
fn strip_comments_keeps_string_literals() {
    let src = "let u = \"a//b\";";
    assert_eq!(strip_comments(src), src);
    assert_eq!(strip_comments("f(\"/* x */\"); // y"), "f(\"/* x */\"); ");
    assert_eq!(strip_comments("let q = \"say \\\"//\\\" ok\"; // c"), "let q = \"say \\\"");
    assert_eq!(strip_comments("let c = '\"'; // x"), "let c = '\"'; ");
    assert_eq!(strip_comments("let d = '\\''; /* y */ z"), "let d = '\\'';  z");
    assert_eq!(strip_comments("fn f<'a>(x: &'a str) {} // c"), "fn f<'a>(x: &'a str) {} ");
}

#[test]
fn strip_comments_keeps_unclosed_block_opener() {
    assert_eq!(strip_comments("a /* b // c\nd"), "a /* b \nd");
    assert_eq!(strip_comments("/*/ x */y"), "y");
}

#[test]
fn string_literal_use_still_counts() {
    let files = vec!["let s = \"use foo;\";".to_string()];
    assert_eq!(search_dep("foo", &files).unwrap(), (1, 1));
}

#[test]
fn manifest_without_dependencies_table_has_none() {
    assert!(extract_deps("[package]\nname = \"x\"\n").unwrap().is_empty());
    assert!(extract_deps("dependencies = 3\n").unwrap().is_empty());
    assert_eq!(extract_deps("[dependencies]\nb = \"1\"\na = \"1\"\n").unwrap(), vec!["b", "a"]);
    assert!(matches!(extract_deps("[dependencies]\na = 1\na = 2\n"), Err(ToolError::Manifest(_))));
}

#[test]
fn stripping_twice_changes_nothing() {
    assert_eq!(strip_comments("'/*c*/\"' // z"), "'\"' ");
    assert_eq!(strip_comments("/*\"*/ x // y \""), " x ");
    for src in [
        "a/*x*/b // c\n/*/ y",
        "x/ /*c*/ /y // z",
        "*/ a /* b */ c /* d",
        "'/*c*/\"' // z",
        "/*\"*/ x // y \"",
        "\"a\" /* \"b */ c // \"d\"",
        "s = \"//\"; t = \"x // y",
    ] {
        let once = strip_comments(src);
        assert_eq!(strip_comments(&once), once, "{src:?}");
    }
}

#[test]
fn classify_by_counts() {
    assert!(classify("foo", 1, 3).is_none());
    let high = classify("serde-json", 0, 0).unwrap();
    assert_eq!(high.name, "serde-json");
    assert_eq!(high.confidence, Confidence::High);
    assert_eq!(
        high.rationale,
        "0 matches in any .rs file (use serde_json|serde_json::) — strong removal candidate."
    );
    let medium = classify("foo", 0, 12).unwrap();
    assert_eq!(medium.confidence, Confidence::Medium);
    assert_eq!(
        medium.rationale,
        "0 matches in code; 12 matches inside comments — verify before removing (might be reference in doc-string)."
    );
}

#[test]
fn search_counts_add_up_over_joined_file_lists() {
    let a = vec!["use foo;\n// foo::x".to_string(), "foo::y(); foo::z();".to_string()];
    let b = vec!["/* use foo; */ foo::w();".to_string(), String::new()];
    let joined: Vec<String> = a.iter().chain(b.iter()).cloned().collect();
    let (ca, ta) = search_dep("foo", &a).unwrap();
    let (cb, tb) = search_dep("foo", &b).unwrap();
    assert_eq!((ca, ta), (3, 4));
    assert_eq!((cb, tb), (1, 2));
    assert_eq!(search_dep("foo", &joined).unwrap(), (ca + cb, ta + tb));
}

#[test]
fn more_files_never_add_candidates() {
    let manifest = "[dependencies]\na = \"1\"\nb = \"1\"\nc = \"1\"\n";
    let few = audit(&request(manifest, &["use a;\n// b::x\n"])).unwrap();
    let many = audit(&request(manifest, &["use a;\n// b::x\n", "use c;\n"])).unwrap();
    let names = |r: &claude_tools::audit::Report| -> Vec<String> {
        r.candidates.iter().map(|c| c.name.clone()).collect()
    };
    assert_eq!(names(&few), vec!["b", "c"]);
    assert_eq!(names(&many), vec!["b"]);
    assert_eq!(few.total_deps, many.total_deps);
}
