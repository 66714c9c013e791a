//! Behavioural tests of the repair engine: the validation gate, the
//! indentation normalizer and the duplicate-key filter on concrete
//! inputs.

use yaml_repair::repair::validate_and_fix_yaml;
use yaml_repair::normalize::fix_yaml_indentation;
use yaml_repair::dedupe::remove_duplicate_keys;

#[test]
fn repair_returns_valid_input_unchanged() {
    let input = "a:\n- x: 1\n- y: 2";
    let fixed = validate_and_fix_yaml(input).unwrap();
    assert_eq!(fixed, input);
}

#[test]
fn repair_leaves_valid_scalar_document_alone() {
    let input = "key: value";
    let fixed = validate_and_fix_yaml(input).unwrap();
    assert_eq!(fixed, input);
}

#[test]
fn normalizer_indents_flat_list_under_header() {
    let fixed = fix_yaml_indentation("items:\n- one\n- two");
    assert_eq!(fixed, "items:\n  - one\n  - two");
}

#[test]
fn normalizer_is_deterministic_in_line_shape() {
    let a = fix_yaml_indentation("items:\n        - one");
    let b = fix_yaml_indentation("items:\n- one");
    assert_eq!(a, b);
    assert_eq!(a, "items:\n  - one");
}

#[test]
fn normalizer_resets_level_at_root_key() {
    let fixed = fix_yaml_indentation("a:\n- x\nb:\n- y");
    assert_eq!(fixed, "a:\n  - x\nb:\n  - y");
}

#[test]
fn normalizer_keeps_blank_lines() {
    // A blank line is kept as is; it also breaks the header/list
    // adjacency, so the item is not pushed a level deeper.
    let fixed = fix_yaml_indentation("a:\n\n- x");
    assert_eq!(fixed, "a:\n\n- x");
}

#[test]
fn duplicate_top_level_key_dropped() {
    let fixed = remove_duplicate_keys("name: foo\nname: bar");
    assert_eq!(fixed, "name: foo");
}

#[test]
fn duplicate_key_in_same_nested_scope_dropped() {
    let fixed = remove_duplicate_keys("a:\n  x: 1\n  x: 2");
    assert_eq!(fixed, "a:\n  x: 1");
}

#[test]
fn same_key_in_other_scope_retained() {
    let input = "a:\n  name: x\nb:\n  name: y";
    let fixed = remove_duplicate_keys(input);
    assert_eq!(fixed, input);
}

#[test]
fn sequence_items_reset_key_namespace() {
    let input = "items:\n- name: a\n  age: 1\n- name: b\n  age: 2";
    let fixed = remove_duplicate_keys(input);
    assert_eq!(fixed, input);
}

#[test]
fn comments_and_blanks_pass_the_filter_untouched() {
    let input = "# note\na: 1\n\n# note\nb: 2";
    let fixed = remove_duplicate_keys(input);
    assert_eq!(fixed, input);
}

#[test]
fn repair_fixes_duplicate_keys_end_to_end() {
    let fixed = validate_and_fix_yaml("name: foo\nname: bar").unwrap();
    assert_eq!(fixed, "name: foo");
}

#[test]
fn repair_rewrites_tab_indentation() {
    let fixed = validate_and_fix_yaml("a:\n\tb: 1").unwrap();
    assert_eq!(fixed, "a:\nb: 1");
}

#[test]
fn repair_reports_unrecoverable_input() {
    let err = validate_and_fix_yaml("a: [unclosed").err().unwrap();
    assert!(err.message.starts_with("Failed to fix YAML: "));
    assert!(err.message.len() > "Failed to fix YAML: ".len());
}

#[test]
fn normalizer_indents_comment_lines_like_freeform_text() {
    let fixed = fix_yaml_indentation("items:\n- a\n# note\n- b");
    assert_eq!(fixed, "items:\n  - a\n  # note\n  - b");
}

#[test]
fn pre_scan_takes_keys_from_indented_lines() {
    // The pre-scan reads keys from every non-list, non-comment line,
    // wherever it was indented: a later line with such a key is
    // pulled back to the top level.
    let fixed = fix_yaml_indentation("items:\n- name: a\n  age: 1");
    assert_eq!(fixed, "items:\n  - name: a\nage: 1");
}
