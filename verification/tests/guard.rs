use claude_tools::guard::{
    auto_detect, commit_short, default_test_name, first_changed_fn, guard_snippet, pick_pattern,
    render, side_of_diff, Pattern,
};

#[test]
fn detects_let_ok_else_from_diff() {
    let diff = r#"
-    let x = thing.unwrap_or_else(|_| panic!("boom"));
+    let Ok(x) = thing else {
+        warn!("skipped");
+        return;
+    };
"#;
    assert!(matches!(auto_detect(diff).unwrap(), Pattern::LetOkElse));
}

#[test]
fn detects_let_else_from_diff() {
    let diff = r#"
-    let first = window.first().unwrap();
+    let Some(first) = window.first() else { return None; };
"#;
    assert!(matches!(auto_detect(diff).unwrap(), Pattern::LetElse));
}

#[test]
fn detects_struct_update_from_diff() {
    let diff = r#"
-    let mut cfg = Config::default();
-    cfg.x = 5;
+    let cfg = Config { x: 5, ..Default::default() };
"#;
    assert!(matches!(auto_detect(diff).unwrap(), Pattern::StructUpdate));
}

#[test]
fn detects_safety_annot() {
    let diff = r#"
+    // SAFETY: bounds checked above.
+    let x = unsafe { *ptr };
"#;
    assert!(matches!(auto_detect(diff).unwrap(), Pattern::SafetyAnnot));
}

#[test]
fn unknown_when_no_pattern_matches() {
    let diff = "// just a comment change\n";
    assert!(matches!(auto_detect(diff).unwrap(), Pattern::Unknown));
}

#[test]
fn first_changed_fn_finds_pub_fn() {
    let diff = "+    pub fn do_thing(x: i32) -> u32 { ... }\n";
    assert_eq!(first_changed_fn(diff).unwrap().as_deref(), Some("do_thing"));
}

#[test]
fn first_changed_fn_finds_plain_fn() {
    let diff = "+fn helper() -> bool { true }\n";
    assert_eq!(first_changed_fn(diff).unwrap().as_deref(), Some("helper"));
}

#[test]
fn render_includes_commit_subject_pattern() {
    let snippet = render(
        "deadbee",
        "fix: replace unwrap with let-else",
        Pattern::LetElse,
        "regression_guard_foo_deadbee",
        Some("crate::foo"),
    );
    assert!(snippet.contains("commit `deadbee`"));
    assert!(snippet.contains("fix: replace unwrap with let-else"));
    assert!(snippet.contains("regression_guard_foo_deadbee"));
    assert!(snippet.contains("crate::foo"));
}

#[test]
fn detects_warn_continue() {
    let diff = "-    if let Ok(line) = stream.next() {\n+    for line in stream.flatten() {\n";
    assert_eq!(auto_detect(diff).unwrap(), Pattern::WarnContinue);
}

#[test]
fn detects_graceful_degrade() {
    let diff = "-    let v = m.get(k).expect(\"impossible\");\n+    let v = m.get(k).ok_or_else(|| Error::Missing)?;\n";
    assert_eq!(auto_detect(diff).unwrap(), Pattern::GracefulDegrade);
}

#[test]
fn detects_error_return() {
    let diff = "-        panic!(\"bad state\");\n+        return Err(Error::BadState);\n";
    assert_eq!(auto_detect(diff).unwrap(), Pattern::ErrorReturn);
}

#[test]
fn more_specific_pattern_wins() {
    // Both a let-ok-else and a SAFETY comment: let-ok-else is tried first.
    let diff = "-x.unwrap_or_else(|_| panic!(\"a\"));\n+// SAFETY: fine\n+let Ok(x) = y else { warn!(\"a\"); return };\n";
    assert_eq!(auto_detect(diff).unwrap(), Pattern::LetOkElse);
}

#[test]
fn file_headers_are_not_diff_lines() {
    let diff = "--- a/src/x.rs\n+++ b/src/x.rs\n@@ -1 +1 @@\n-old\n+new\r\n context\n";
    assert_eq!(side_of_diff(diff, true), "new");
    assert_eq!(side_of_diff(diff, false), "old");
    let diff = "+a\n+b\n-c\n+++\n";
    assert_eq!(side_of_diff(diff, true), "a\nb");
}

#[test]
fn from_str_names_and_unknown() {
    let all = [
        ("let-else", Pattern::LetElse),
        ("let-ok-else", Pattern::LetOkElse),
        ("warn-continue", Pattern::WarnContinue),
        ("safety-annot", Pattern::SafetyAnnot),
        ("graceful-degrade", Pattern::GracefulDegrade),
        ("struct-update", Pattern::StructUpdate),
        ("error-return", Pattern::ErrorReturn),
        ("unknown", Pattern::Unknown),
        ("Let-Else", Pattern::Unknown),
        ("", Pattern::Unknown),
    ];
    for (name, p) in all {
        assert_eq!(Pattern::from_str(name), p, "{name}");
    }
}

#[test]
fn explanation_and_variant_name() {
    assert_eq!(
        Pattern::Unknown.explanation(),
        "Pattern not auto-detected. Edit the docstring to describe the refactor manually."
    );
    assert_eq!(
        Pattern::ErrorReturn.explanation(),
        "Bare `panic!()` → typed error return — caller can `?`-propagate instead of crashing."
    );
    assert_eq!(Pattern::GracefulDegrade.variant_name(), "GracefulDegrade");
    assert_eq!(Pattern::LetOkElse.variant_name(), format!("{:?}", Pattern::LetOkElse));
}

#[test]
fn first_changed_fn_none_and_async() {
    assert_eq!(first_changed_fn("-fn gone() {}\n context fn x() {}\n").unwrap(), None);
    assert_eq!(
        first_changed_fn(" ctx\n+  pub async fn fetch_all() {}\n+fn later() {}\n").unwrap().as_deref(),
        Some("fetch_all")
    );
}

#[test]
fn short_commit_is_seven_bytes() {
    assert_eq!(commit_short("deadbeef0123"), "deadbee");
    assert_eq!(commit_short("abc"), "abc");
    assert_eq!(commit_short("abcdefg"), "abcdefg");
}

#[test]
fn default_test_name_uses_fn_or_refactor() {
    assert_eq!(default_test_name(Some("helper"), "deadbee"), "regression_guard_helper_deadbee");
    assert_eq!(default_test_name(None, "abc"), "regression_guard_refactor_abc");
}

#[test]
fn render_without_module_is_exact_head() {
    let s = render("abc1234", "subj", Pattern::StructUpdate, "t_name", None);
    assert!(s.starts_with(
        "    /// REGRESSION-GUARD — commit `abc1234`\n    ///\n    /// Subject: subj\n    ///\n    /// Pattern: StructUpdate\n    ///\n    /// `let mut x = T::default(); x.f = v;`"
    ));
    assert!(s.contains("    ///\n    /// If this test fails"));
    assert!(!s.contains("Module:"));
    assert!(s.contains("    #[test]\n    fn t_name() {\n"));
    assert!(s.ends_with("explicitly.\n    }\n"));
}

#[test]
fn snippet_from_diff_with_defaults() {
    let diff = "-    let first = window.first().unwrap();\n+fn pick() {\n+    let Some(first) = window.first() else { return None; };\n";
    let s = guard_snippet("deadbee", "fix: pick", diff, None, None, Some("crate::w")).unwrap();
    assert_eq!(
        s,
        render("deadbee", "fix: pick", Pattern::LetElse, "regression_guard_pick_deadbee", Some("crate::w"))
    );
}

#[test]
fn snippet_with_overrides() {
    let s = guard_snippet("abc", "s", "+fn x() {}\n", Some("error-return"), Some("my_test"), None)
        .unwrap();
    assert_eq!(s, render("abc", "s", Pattern::ErrorReturn, "my_test", None));
    let s = guard_snippet("abc", "s", "", None, None, None).unwrap();
    assert_eq!(s, render("abc", "s", Pattern::Unknown, "regression_guard_refactor_abc", None));
}

#[test]
fn bare_carriage_return_at_end_is_kept() {
    assert_eq!(side_of_diff("+x\r", true), "x\r");
    assert_eq!(side_of_diff("+x\r\n+y", true), "x\ny");
    assert_eq!(side_of_diff("+a\rb\n", true), "a\rb");
}

#[test]
fn pick_pattern_tries_specific_patterns_first() {
    let f = Some(false);
    let t = Some(true);
    assert_eq!(pick_pattern(t, t, t, t, true, t, true), Some(Pattern::LetOkElse));
    assert_eq!(pick_pattern(f, t, t, t, true, t, true), Some(Pattern::WarnContinue));
    assert_eq!(pick_pattern(f, f, t, t, true, t, true), Some(Pattern::GracefulDegrade));
    assert_eq!(pick_pattern(f, f, f, t, true, t, true), Some(Pattern::LetElse));
    assert_eq!(pick_pattern(f, f, f, f, true, t, true), Some(Pattern::SafetyAnnot));
    assert_eq!(pick_pattern(f, f, f, f, false, t, true), Some(Pattern::StructUpdate));
    assert_eq!(pick_pattern(f, f, f, f, false, f, true), Some(Pattern::ErrorReturn));
    assert_eq!(pick_pattern(f, f, f, f, false, f, false), Some(Pattern::Unknown));
}

#[test]
fn pick_pattern_stops_at_a_failed_check() {
    assert_eq!(pick_pattern(Some(true), None, None, None, false, None, false), Some(Pattern::LetOkElse));
    assert_eq!(pick_pattern(Some(false), None, Some(true), None, false, None, false), None);
    assert_eq!(pick_pattern(Some(false), Some(false), Some(false), Some(false), true, None, false), Some(Pattern::SafetyAnnot));
    assert_eq!(pick_pattern(Some(false), Some(false), Some(false), Some(false), false, None, true), None);
}
