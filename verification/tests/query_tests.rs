use maerbooru::pattern::name_matches;
use maerbooru::query::{
    build_post_list_query, build_post_search_query, build_search_query, build_tag_list_query,
    escape_string, page_offset,
};

#[test]
fn wildcard_prefix_matches() {
    assert!(name_matches("lain*", "lainverse"));
    assert!(!name_matches("lain*", "xlain"));
}

#[test]
fn wildcard_suffix_matches() {
    assert!(name_matches("*girls", "magicalgirls"));
    assert!(!name_matches("*girls", "girlsx"));
}

#[test]
fn wildcard_inner_matches() {
    assert!(name_matches("*hello*", "sayhellothere"));
    assert!(!name_matches("*hello*", "sayhelothere"));
}

#[test]
fn wildcard_all_matches_everything() {
    assert!(name_matches("**", "anything"));
    assert!(name_matches("**", ""));
    assert!(name_matches("", "anything"));
    assert!(name_matches("*", "whatever"));
}

#[test]
fn exact_pattern_matches_exact_name() {
    assert!(name_matches("lain", "lain"));
    assert!(!name_matches("lain", "lainverse"));
    assert!(!name_matches("lain", "xlain"));
}

#[test]
fn empty_search_builds_empty_clause() {
    assert_eq!(build_search_query(String::new()), "");
    assert_eq!(build_search_query(String::from("**")), "");
    assert_eq!(build_search_query(String::from("*")), "");
}

#[test]
fn exact_search_builds_equality_clause() {
    assert_eq!(
        build_search_query(String::from("lain")),
        "WHERE name = 'lain'"
    );
}

#[test]
fn wildcard_search_builds_conditions() {
    assert_eq!(
        build_search_query(String::from("lain*")),
        "WHERE string::starts_with(name, 'lain')"
    );
    assert_eq!(
        build_search_query(String::from("*girls")),
        "WHERE string::ends_with(name, 'girls')"
    );
    assert_eq!(
        build_search_query(String::from("*hello*")),
        "WHERE string::contains(name, 'hello')"
    );
    assert_eq!(
        build_search_query(String::from("a*b*c")),
        "WHERE string::starts_with(name, 'a') AND string::ends_with(name, 'c') AND string::contains(name, 'b')"
    );
}

#[test]
fn search_values_are_escaped() {
    assert_eq!(escape_string(String::from("it's")), "it''s");
    assert_eq!(escape_string(String::from("''")), "''''");
    assert_eq!(
        build_search_query(String::from("a'b")),
        "WHERE name = 'a''b'"
    );
    assert_eq!(
        build_search_query(String::from("o'hara*")),
        "WHERE string::starts_with(name, 'o''hara')"
    );
}

#[test]
fn tag_list_query_composes() {
    assert_eq!(
        build_tag_list_query(None),
        "SELECT * FROM tag ORDER BY use_count DESC LIMIT $limit START $offset"
    );
    assert_eq!(
        build_tag_list_query(Some(String::from("**"))),
        "SELECT * FROM tag ORDER BY use_count DESC LIMIT $limit START $offset"
    );
    assert_eq!(
        build_tag_list_query(Some(String::from("lain*"))),
        "SELECT * FROM tag WHERE string::starts_with(name, 'lain') ORDER BY use_count DESC LIMIT $limit START $offset"
    );
}

#[test]
fn post_search_query_selects_by_tag_names() {
    assert_eq!(build_post_search_query(String::new()), "");
    assert_eq!(
        build_post_search_query(String::from("lain*")),
        "WHERE tags CONTAINSANY (SELECT VALUE custom_id FROM tag WHERE string::starts_with(name, 'lain'))"
    );
    assert_eq!(
        build_post_list_query(Some(String::from("lain"))),
        "SELECT * FROM post WHERE tags CONTAINSANY (SELECT VALUE custom_id FROM tag WHERE name = 'lain') ORDER BY custom_id DESC LIMIT $limit START $offset"
    );
}

#[test]
fn page_offset_is_zero_based() {
    assert_eq!(page_offset(1, 40), 0);
    assert_eq!(page_offset(2, 40), 40);
    assert_eq!(page_offset(3, 40), 80);
    assert_eq!(page_offset(4294967295, 4294967295), 18446744060824649730);
}
