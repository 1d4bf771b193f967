use cw_images::template::get_metrics_json;
use cw_images::text::{replace_all, contains_sub};
use cw_images::naming::image_file_name;

#[test]
fn render_substitutes_every_token() {
    let template = "{\"ns\":\"{{NAMESPACE}}\",\"region\":\"{{REGION}}\",\"start\":\"{{PERIOD_START}}\",\"end\":\"{{PERIOD_END}}\",\"period\":{{PERIOD}}}";
    let out = get_metrics_json(template, "us-east-1", "Foo", "4320H", "0H", "3600");
    assert_eq!(
        out,
        "{\"ns\":\"Foo\",\"region\":\"us-east-1\",\"start\":\"4320H\",\"end\":\"0H\",\"period\":3600}"
    );
}

#[test]
fn render_round_trip_document() {
    let template = "{\"region\":\"{{REGION}}\",\"ns\":\"{{NAMESPACE}}\"}";
    let out = get_metrics_json(template, "us-east-1", "Foo", "4320H", "0H", "3600");
    assert_eq!(out, "{\"region\":\"us-east-1\",\"ns\":\"Foo\"}");
}

#[test]
fn render_replaces_every_occurrence_of_a_token() {
    let template = "{{REGION}} and again {{REGION}}";
    let out = get_metrics_json(template, "eu-west-1", "Foo", "s", "e", "p");
    assert_eq!(out, "eu-west-1 and again eu-west-1");
}

#[test]
fn render_is_identity_without_tokens() {
    let template = "{\"widgets\":[{\"type\":\"metric\"}]}";
    let out = get_metrics_json(template, "us-east-1", "Foo", "4320H", "0H", "3600");
    assert_eq!(out, template);
}

#[test]
fn render_passes_unknown_tokens_through() {
    let template = "{{UNKNOWN}} {{NAMESPACE}}";
    let out = get_metrics_json(template, "us-east-1", "Foo", "s", "e", "p");
    assert_eq!(out, "{{UNKNOWN}} Foo");
}

#[test]
fn period_tokens_do_not_collide() {
    let template = "{{PERIOD_START}}|{{PERIOD_END}}|{{PERIOD}}";
    let out = get_metrics_json(template, "r", "n", "4320H", "0H", "3600");
    assert_eq!(out, "4320H|0H|3600");
}

#[test]
fn replace_all_is_leftmost_and_non_overlapping() {
    assert_eq!(replace_all("aaa", "aa", "b"), "ba");
    assert_eq!(replace_all("abcabc", "abc", "x"), "xx");
    assert_eq!(replace_all("abc", "", "x"), "abc");
}

#[test]
fn contains_sub_finds_substrings() {
    assert!(contains_sub("SomeDataProcessingProgram", "DataProc"));
    assert!(!contains_sub("SomeDataProcessingProgram", "dataproc"));
    assert!(contains_sub("anything", ""));
    assert!(!contains_sub("ab", "abc"));
}

#[test]
fn image_name_joins_components_and_appends_extension() {
    let name = image_file_name("Foo", "metric", "us-east-1", "4320H", 1700000000);
    assert_eq!(name, "Foo-metric-us-east-1-4320H-1700000000.png");
}

#[test]
fn image_name_replaces_an_existing_extension() {
    let name = image_file_name("My.App", "metric", "us-east-1", "4320H", 7);
    assert_eq!(name, "My.png");
}

#[test]
fn distinct_timestamps_give_distinct_paths() {
    let a = image_file_name("Foo", "metric", "us-east-1", "4320H", 1700000000);
    let b = image_file_name("Foo", "metric", "us-east-1", "4320H", 1700000001);
    assert_ne!(a, b);
}

#[test]
fn rendering_an_already_rendered_text_changes_nothing() {
    let template = "{{NAMESPACE}}-{{REGION}}";
    let once = get_metrics_json(template, "us-east-1", "Foo", "s", "e", "p");
    let twice = get_metrics_json(&once, "us-east-1", "Foo", "s", "e", "p");
    assert_eq!(once, twice);
}
