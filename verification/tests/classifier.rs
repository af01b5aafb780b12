use ts_rubberstamp::classify::{
    analyze_edit, classify, evaluate_request, is_formatting_only_change,
    is_import_statement_change, is_typescript_file, matches_import_prefix, should_auto_approve,
    ToolInput, Verdict,
};

fn approves(v: &Verdict) -> bool {
    matches!(v, Verdict::Approve { .. })
}

#[test]
fn identical_text_approves() {
    let v = classify("function f() { return 1; }", "function f() { return 1; }");
    assert!(approves(&v));
}

#[test]
fn whitespace_only_difference_approves() {
    let v = classify("const x=1;\nlet y = 2;", "const x = 1;\n\tlet y=2;\n");
    assert!(approves(&v));
}

#[test]
fn unicode_whitespace_difference_approves() {
    let v = classify("a\u{00A0}b", "a b");
    assert!(approves(&v));
}

#[test]
fn empty_pair_approves() {
    let v = classify("", "");
    assert!(approves(&v));
}

#[test]
fn unrelated_change_defers() {
    let v = classify("const x = 1", "import Foo");
    assert!(matches!(v, Verdict::Defer));
}

#[test]
fn import_replacement_approves() {
    let v = classify("import { A } from 'a'", "import { A, B } from 'a'");
    assert!(approves(&v));
}

#[test]
fn import_insertion_approves() {
    let v = classify("", "import Foo from 'foo'");
    assert!(approves(&v));
}

#[test]
fn import_deletion_approves() {
    let v = classify("import Foo from 'foo'", "");
    assert!(approves(&v));
}

#[test]
fn import_to_code_defers() {
    let v = classify("import Foo", "const x = doSomething()");
    assert!(matches!(v, Verdict::Defer));
}

#[test]
fn approval_carries_fixed_reason() {
    match classify("", "") {
        Verdict::Approve { reason } => {
            assert_eq!(reason, "Auto-approved: Safe edit detected");
        }
        Verdict::Defer => panic!("expected an approval"),
    }
}

#[test]
fn formatting_check_strips_all_whitespace() {
    assert!(is_formatting_only_change("a b\tc", "abc"));
    assert!(is_formatting_only_change("", "  \n\t"));
    assert!(!is_formatting_only_change("ab", "ac"));
}

#[test]
fn import_pattern_needs_trailing_whitespace() {
    assert!(matches_import_prefix("import Foo"));
    assert!(matches_import_prefix("  \timport\tFoo"));
    assert!(!matches_import_prefix("import"));
    assert!(!matches_import_prefix("importFoo"));
    assert!(!matches_import_prefix("x import Foo"));
    assert!(!matches_import_prefix(""));
}

#[test]
fn import_change_sub_conditions() {
    assert!(is_import_statement_change("import A ", "import B "));
    assert!(is_import_statement_change("   ", "import B "));
    assert!(is_import_statement_change("import A ", "  \n"));
    assert!(!is_import_statement_change("const a = 1", "import B "));
    assert!(!is_import_statement_change("import A ", "const b = 2"));
}

#[test]
fn should_auto_approve_combines_both_rules() {
    assert!(should_auto_approve("a", "a"));
    assert!(should_auto_approve("import A ", "import B "));
    assert!(!should_auto_approve("a", "b"));
}

#[test]
fn typescript_file_gate() {
    assert!(is_typescript_file("src/app.ts"));
    assert!(is_typescript_file("src/app.tsx"));
    assert!(!is_typescript_file("src/app.rs"));
    assert!(!is_typescript_file("src/app.ts.bak"));
    assert!(!is_typescript_file("ts"));
    assert!(!is_typescript_file(""));
}

#[test]
fn analyze_edit_defaults_absent_texts_to_empty() {
    let input = ToolInput {
        file_path: String::from("a.ts"),
        old_string: None,
        new_string: None,
    };
    let out = analyze_edit(&input);
    assert_eq!(out.decision.as_deref(), Some("approve"));
    assert_eq!(out.reason.as_deref(), Some("Auto-approved: Safe edit detected"));
}

#[test]
fn analyze_edit_defers_on_unsafe_edit() {
    let input = ToolInput {
        file_path: String::from("a.ts"),
        old_string: Some(String::from("const x = 1")),
        new_string: Some(String::from("import Foo")),
    };
    let out = analyze_edit(&input);
    assert!(out.decision.is_none());
    assert!(out.reason.is_none());
}

#[test]
fn non_edit_tool_defers() {
    let input = ToolInput {
        file_path: String::from("a.ts"),
        old_string: Some(String::from("x")),
        new_string: Some(String::from("x")),
    };
    let out = evaluate_request("Write", &input);
    assert!(out.decision.is_none());
    assert!(out.reason.is_none());
}

#[test]
fn unrecognized_extension_defers() {
    let input = ToolInput {
        file_path: String::from("notes.md"),
        old_string: Some(String::from("x")),
        new_string: Some(String::from("x")),
    };
    let out = evaluate_request("Edit", &input);
    assert!(out.decision.is_none());
    assert!(out.reason.is_none());
}

#[test]
fn recognized_request_is_classified() {
    let input = ToolInput {
        file_path: String::from("a.tsx"),
        old_string: Some(String::from("import A from 'a'")),
        new_string: Some(String::from("import B from 'b'")),
    };
    let out = evaluate_request("Edit", &input);
    assert_eq!(out.decision.as_deref(), Some("approve"));
}
