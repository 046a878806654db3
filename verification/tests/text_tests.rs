use gltf_components::text::{
    capitalize_first_letter, nested_frame, remove_occurrences, short_type_name, single_frame,
    str_contains, str_ends_with, str_eq, trim_ascii_ws, unwrap_parens,
};

#[test]
fn capitalize_lowercase_first_letter() {
    assert_eq!(capitalize_first_letter("velocity"), "Velocity");
}

#[test]
fn capitalize_keeps_capitalized_word() {
    assert_eq!(capitalize_first_letter("Velocity"), "Velocity");
}

#[test]
fn capitalize_empty_is_empty() {
    assert_eq!(capitalize_first_letter(""), "");
}

#[test]
fn capitalize_keeps_non_letter() {
    assert_eq!(capitalize_first_letter("1health"), "1health");
}

#[test]
fn short_type_name_strips_marker_and_capitalizes() {
    assert_eq!(short_type_name("component: velocity"), "Velocity");
}

#[test]
fn short_type_name_trims_leftover_whitespace() {
    assert_eq!(short_type_name("component:  padded"), "Padded");
}

#[test]
fn short_type_name_without_marker() {
    assert_eq!(short_type_name("health"), "Health");
}

#[test]
fn remove_occurrences_removes_all() {
    assert_eq!(remove_occurrences("abcabc", "b"), "acac");
}

#[test]
fn trim_removes_both_ends() {
    assert_eq!(trim_ascii_ws("  hi\t"), "hi");
}

#[test]
fn unwrap_parens_removes_enclosing_pair() {
    assert_eq!(unwrap_parens("(x: 1.0)"), "x: 1.0");
}

#[test]
fn unwrap_parens_keeps_plain_text() {
    assert_eq!(unwrap_parens("plain"), "plain");
}

#[test]
fn unwrap_parens_strips_repeated_parens() {
    assert_eq!(unwrap_parens("((a))"), "a");
}

#[test]
fn unwrap_parens_of_empty_pair() {
    assert_eq!(unwrap_parens("()"), "");
}

#[test]
fn single_frame_builds_constructor_call() {
    assert_eq!(single_frame("Velocity", "x: 1.0"), "Velocity(x: 1.0)");
}

#[test]
fn nested_frame_builds_one_field_map() {
    assert_eq!(nested_frame("pkg::Health", "(hp: 10)"), "{ \"pkg::Health\":(hp: 10) }");
}

#[test]
fn contains_finds_substring() {
    assert!(str_contains("armature_components", "components"));
    assert!(!str_contains("armature", "components"));
}

#[test]
fn ends_with_finds_suffix() {
    assert!(str_ends_with("bar_pa", "_pa"));
    assert!(!str_ends_with("bar_pal", "_pa"));
}

#[test]
fn str_eq_compares_characters() {
    assert!(str_eq("abc", "abc"));
    assert!(!str_eq("abc", "abd"));
    assert!(!str_eq("abc", "ab"));
}
