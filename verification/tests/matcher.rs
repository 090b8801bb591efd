use parks_api::matcher::fuzzy_match;

#[test]
fn substring_match_is_case_insensitive() {
    assert!(fuzzy_match("yose", "Yosemite National Park"));
}

#[test]
fn substring_match_crosses_token_boundaries() {
    assert!(fuzzy_match("grand can", "Grand Canyon"));
}

#[test]
fn unrelated_query_does_not_match() {
    assert!(!fuzzy_match("xyz123", "Yellowstone"));
}

#[test]
fn empty_query_matches_everything() {
    assert!(fuzzy_match("", "anything"));
    assert!(fuzzy_match("", ""));
    assert!(fuzzy_match("", "Grand Canyon"));
}

#[test]
fn whole_string_containment_fires_inside_a_token() {
    assert!(fuzzy_match("wood", "Redwood National Park"));
}

#[test]
fn matching_is_not_symmetric() {
    assert!(fuzzy_match("yose", "Yosemite National Park"));
    assert!(!fuzzy_match("Yosemite National Park", "yose"));
}

#[test]
fn uppercase_query_is_lowered_before_comparison() {
    assert!(fuzzy_match("YOSEMITE", "yosemite valley"));
    assert!(fuzzy_match("YoSe", "yosemite"));
}

#[test]
fn token_level_containment_matches_out_of_order_words() {
    assert!(fuzzy_match("canyon grand", "Grand Canyon"));
}

#[test]
fn token_level_containment_matches_partial_word() {
    assert!(fuzzy_match("national wood", "Redwood Park"));
}

#[test]
fn whitespace_only_strings_have_no_tokens() {
    assert!(!fuzzy_match("abc", "   "));
    assert!(!fuzzy_match("   ", "abc"));
}
