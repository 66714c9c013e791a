//! Tests of the fence extractor and the prompt builder on concrete
//! inputs.

use yaml_repair::extract::extract_yaml;
use yaml_repair::prompt::build_user_prompt;

#[test]
fn extract_prefers_named_fence() {
    let out = extract_yaml("Some prose\n```yaml\na: 1\n```\nmore prose");
    assert_eq!(out, "a: 1");
}

#[test]
fn extract_takes_bare_fence() {
    let out = extract_yaml("```\nfoo: bar\n```");
    assert_eq!(out, "foo: bar");
}

#[test]
fn extract_without_fence_trims_whole_reply() {
    let out = extract_yaml("  a: 1\n");
    assert_eq!(out, "a: 1");
}

#[test]
fn extract_unclosed_fence_runs_to_end() {
    let out = extract_yaml("```yaml\na: 1");
    assert_eq!(out, "a: 1");
}

#[test]
fn extract_empty_named_block() {
    let out = extract_yaml("```yaml```");
    assert_eq!(out, "");
}

#[test]
fn prompt_builder_substitutes_both_placeholders() {
    let out = build_user_prompt("use {INPUT_CONTENT} against {TEMPLATE_CONTENT}!", "IN", "TPL");
    assert_eq!(out, "use IN against TPL!");
}

#[test]
fn prompt_builder_replaces_every_occurrence() {
    let out = build_user_prompt("x{INPUT_CONTENT}y{INPUT_CONTENT}", "Z", "unused");
    assert_eq!(out, "xZyZ");
}

#[test]
fn prompt_builder_leaves_plain_template_alone() {
    let out = build_user_prompt("no placeholders here", "IN", "TPL");
    assert_eq!(out, "no placeholders here");
}
