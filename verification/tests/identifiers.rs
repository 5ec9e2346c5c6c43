use nodespace_core::ids::{is_date_node_id, is_root_node, is_valid_node_id, normalize_schema_id};
use nodespace_core::mentions::{collect_mentions, extract_mentions, PatternMatch};

#[test]
fn test_normalize_schema_id_basic() {
    assert_eq!(normalize_schema_id("Invoice"), "invoice");
    assert_eq!(normalize_schema_id("Customer Profile"), "customer-profile");
    assert_eq!(normalize_schema_id("code_block"), "code-block");
    assert_eq!(normalize_schema_id("My Widget"), "my-widget");
}

#[test]
fn test_normalize_schema_id_edge_cases() {
    assert_eq!(normalize_schema_id("  spaces  "), "spaces");
    assert_eq!(normalize_schema_id("already-kebab"), "already-kebab");
    assert_eq!(normalize_schema_id("UPPER CASE"), "upper-case");
}

#[test]
fn test_is_valid_node_id_uuid() {
    // Valid UUID (lowercase)
    assert!(is_valid_node_id("550e8400-e29b-41d4-a716-446655440000"));

    // Valid UUID (mixed case - should work with lowercase check)
    assert!(is_valid_node_id("550e8400-e29b-41d4-a716-446655440000"));

    // Invalid UUID (wrong format)
    assert!(!is_valid_node_id("not-a-uuid"));
    assert!(!is_valid_node_id("550e8400e29b41d4a716446655440000")); // Missing dashes
}

#[test]
fn test_is_valid_node_id_date() {
    // Valid dates
    assert!(is_valid_node_id("2025-10-24"));
    assert!(is_valid_node_id("2024-01-01"));
    assert!(is_valid_node_id("2025-12-31"));

    // Invalid dates (format)
    assert!(!is_valid_node_id("2025-10-1")); // Single digit day
    assert!(!is_valid_node_id("2025-1-24")); // Single digit month
    assert!(!is_valid_node_id("25-10-24")); // Two digit year

    // Invalid dates (values)
    assert!(!is_valid_node_id("2025-13-01")); // Invalid month
    assert!(!is_valid_node_id("2025-02-30")); // Invalid day for February
    assert!(!is_valid_node_id("2025-00-01")); // Invalid month (0)
}

#[test]
fn test_extract_mentions_markdown_format() {
    let content = "See [@Node A](nodespace://550e8400-e29b-41d4-a716-446655440000) and [Node B](nodespace://2025-10-24)";
    let mentions = extract_mentions(content);

    assert_eq!(mentions.len(), 2);
    assert!(mentions.contains(&"550e8400-e29b-41d4-a716-446655440000".to_string()));
    assert!(mentions.contains(&"2025-10-24".to_string()));
}

#[test]
fn test_extract_mentions_plain_format() {
    let content = "Check out nodespace://550e8400-e29b-41d4-a716-446655440000 and nodespace://2025-10-24";
    let mentions = extract_mentions(content);

    assert_eq!(mentions.len(), 2);
    assert!(mentions.contains(&"550e8400-e29b-41d4-a716-446655440000".to_string()));
    assert!(mentions.contains(&"2025-10-24".to_string()));
}

#[test]
fn test_extract_mentions_mixed_formats() {
    let content = "Markdown [@link](nodespace://550e8400-e29b-41d4-a716-446655440000) and plain nodespace://2025-10-24";
    let mentions = extract_mentions(content);

    assert_eq!(mentions.len(), 2);
    assert!(mentions.contains(&"550e8400-e29b-41d4-a716-446655440000".to_string()));
    assert!(mentions.contains(&"2025-10-24".to_string()));
}

#[test]
fn test_extract_mentions_deduplication() {
    let content = "[@Dup](nodespace://550e8400-e29b-41d4-a716-446655440000) and [@Dup again](nodespace://550e8400-e29b-41d4-a716-446655440000)";
    let mentions = extract_mentions(content);

    // Should deduplicate - only one mention
    assert_eq!(mentions.len(), 1);
    assert!(mentions.contains(&"550e8400-e29b-41d4-a716-446655440000".to_string()));
}

#[test]
fn test_extract_mentions_with_query_params() {
    let content = "Link with params [@Node](nodespace://550e8400-e29b-41d4-a716-446655440000?view=edit)";
    let mentions = extract_mentions(content);

    // Should extract node ID without query params
    assert_eq!(mentions.len(), 1);
    assert!(mentions.contains(&"550e8400-e29b-41d4-a716-446655440000".to_string()));
}

#[test]
fn test_extract_mentions_invalid_ids() {
    let content =
        "Invalid [@link](nodespace://not-valid) and [@another](nodespace://invalid-id)";
    let mentions = extract_mentions(content);

    // Should not extract invalid node IDs
    assert_eq!(mentions.len(), 0);
}

#[test]
fn test_extract_mentions_empty_content() {
    let mentions = extract_mentions("");
    assert_eq!(mentions.len(), 0);
}

#[test]
fn test_extract_mentions_no_mentions() {
    let content = "Just regular text with no mentions at all";
    let mentions = extract_mentions(content);
    assert_eq!(mentions.len(), 0);
}

#[test]
fn dates_have_one_form() {
    assert!(is_date_node_id("2025-01-31"));
    assert!(is_date_node_id("2024-02-29"));
    assert!(!is_date_node_id("2025-02-29"));
    assert!(!is_date_node_id("2025-1-31"));
    assert!(!is_date_node_id("2025-01-31 "));
    assert!(!is_date_node_id(""));
    assert!(!is_date_node_id("550e8400-e29b-41d4-a716-446655440000"));
}

#[test]
fn uuids_are_valid_in_lower_case_only() {
    assert!(is_valid_node_id("550e8400-e29b-41d4-a716-446655440000"));
    assert!(!is_valid_node_id("550E8400-E29B-41D4-A716-446655440000"));
    assert!(!is_valid_node_id("550e8400-e29b-41d4-a716-44665544000g"));
    assert!(!is_valid_node_id("550e8400-e29b-41d4-a716-4466554400000"));
}

#[test]
fn a_node_without_a_root_is_a_root() {
    assert!(is_root_node(&None));
    assert!(!is_root_node(&Some("2025-01-31".to_string())));
}

#[test]
fn schema_ids_are_kebab_case() {
    assert_eq!(normalize_schema_id("A  --  B"), "a-b");
    assert_eq!(normalize_schema_id("(Draft) v2!"), "draft-v2");
    assert_eq!(normalize_schema_id("Größe"), "größe");
    assert_eq!(normalize_schema_id("---"), "");
    assert_eq!(normalize_schema_id(&normalize_schema_id("Customer Profile")), "customer-profile");
}

#[test]
fn mentions_by_path_are_found() {
    let content = "nodespace://node/2025-10-24, then [x](nodespace://node/550e8400-e29b-41d4-a716-446655440000)";
    let mentions = extract_mentions(content);
    assert!(mentions.contains(&"550e8400-e29b-41d4-a716-446655440000".to_string()));
}

#[test]
fn each_mention_is_listed_once_and_links_come_first() {
    let content = "nodespace://2025-10-24 and [@b](nodespace://2025-10-25) and nodespace://2025-10-25";
    let mentions = extract_mentions(content);
    assert_eq!(mentions, vec!["2025-10-25".to_string(), "2025-10-24".to_string()]);
}

#[test]
fn addresses_inside_links_do_not_count_twice() {
    let markdown = vec![PatternMatch {
        start: 0,
        end: 40,
        group: Some("2025-10-24".to_string()),
    }];
    let plain = vec![
        PatternMatch { start: 4, end: 26, group: Some("2025-10-23".to_string()) },
        PatternMatch { start: 50, end: 72, group: Some("2025-10-22".to_string()) },
        PatternMatch { start: 80, end: 90, group: Some("nonsense".to_string()) },
        PatternMatch { start: 95, end: 99, group: None },
    ];
    assert_eq!(
        collect_mentions(&markdown, &plain),
        vec!["2025-10-24".to_string(), "2025-10-22".to_string()]
    );
}

#[test]
fn a_link_names_its_node() {
    for id in ["550e8400-e29b-41d4-a716-446655440000", "2025-10-24"] {
        for content in [
            format!("nodespace://{}", id),
            format!("nodespace://node/{}", id),
            format!("[@t](nodespace://{})", id),
            format!("[t](nodespace://node/{}?q)", id),
            format!("[a [b\n\u{e9}](nodespace://{}?)", id),
            format!("[nodespace://x](nodespace://node/{})", id),
            format!("[(?)](nodespace://{}?a=[b]&c= d)", id),
        ] {
            assert_eq!(extract_mentions(&content), vec![id.to_string()]);
        }
    }
}

#[test]
fn the_identifier_of_an_identifier_is_the_same() {
    for name in ["Project Plan", "  A__b  ", "\u{c9}tat des lieux", "\u{39f}\u{394}\u{39f}\u{3a3} 1"] {
        let id = normalize_schema_id(name);
        assert_eq!(normalize_schema_id(&id), id);
    }
    for c in (0..=0x10ffff).filter_map(char::from_u32).filter(|c| c.is_uppercase()) {
        for name in [c.to_string(), format!("a{}", c), format!("{}b {}", c, c)] {
            let id = normalize_schema_id(&name);
            assert_eq!(normalize_schema_id(&id), id);
        }
    }
}

#[test]
fn mentions_stand_in_the_content() {
    let linked = "Before [a [b](nodespace://node/2025-10-24?view=x), nodespace://2025-10-25.";
    assert_eq!(extract_mentions(linked), vec!["2025-10-24"]);
    let plain = "First\nnodespace://node/2025-10-24) and nodespace://2025-10-25?q end";
    assert_eq!(extract_mentions(plain), vec!["2025-10-24", "2025-10-25"]);
    assert!(extract_mentions("2025-10-24 node/2025-10-24 space://2025-10-24").is_empty());
    assert!(extract_mentions("[x](nodespace://2025-10-24").contains(&"2025-10-24".to_string()));
}
