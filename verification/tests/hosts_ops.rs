use phocus::{block_domain, blocking_entry, get_hosts_path, trim, unblock_domains};

#[test]
fn blocking_entry_maps_domain_to_loopback() {
    let entry = blocking_entry("ads.example.com");
    assert_eq!(entry, "127.0.0.1 ads.example.com\n");
}

#[test]
fn block_domain_appends_entry_to_content() {
    let before = "1.2.3.4 keep.example\n";
    let after = block_domain(before, "ads.example.com");
    assert_eq!(after, "1.2.3.4 keep.example\n127.0.0.1 ads.example.com\n");
}

#[test]
fn unblock_restores_initial_file() {
    let content = "1.2.3.4 keep.example\n127.0.0.1 ads.example.com\n";
    let domains = vec!["ads.example.com".to_string()];
    let cleaned = unblock_domains(content, &domains);
    assert_eq!(cleaned, "1.2.3.4 keep.example\n");
}

#[test]
fn unblock_removes_duplicate_entries_in_one_pass() {
    let content = "127.0.0.1 a.com\n127.0.0.1 a.com\n";
    let domains = vec!["a.com".to_string(), "a.com".to_string()];
    let cleaned = unblock_domains(content, &domains);
    assert_eq!(cleaned, "");
}

#[test]
fn unblock_matches_substrings_not_exact_tokens() {
    let content = "1.2.3.4 notads.example.com\n5.6.7.8 other.example\n";
    let domains = vec!["ads.example.com".to_string()];
    let cleaned = unblock_domains(content, &domains);
    assert_eq!(cleaned, "5.6.7.8 other.example\n");
}

#[test]
fn unblock_with_no_domains_keeps_content() {
    let domains: Vec<String> = Vec::new();
    assert_eq!(unblock_domains("a\nb\n", &domains), "a\nb\n");
    assert_eq!(unblock_domains("a\nb", &domains), "a\nb");
    assert_eq!(unblock_domains("", &domains), "");
}

#[test]
fn unblock_twice_changes_nothing_more() {
    let content = "# comment\n127.0.0.1 x.test\nkeep me\n";
    let domains = vec!["x.test".to_string()];
    let once = unblock_domains(content, &domains);
    let twice = unblock_domains(&once, &domains);
    assert_eq!(once, "# comment\nkeep me\n");
    assert_eq!(once, twice);
}

#[test]
fn unblock_keeps_unaffected_lines_byte_for_byte() {
    let content = "  spaced line \n127.0.0.1 gone.test\n\ttabbed\n\n";
    let domains = vec!["gone.test".to_string()];
    let cleaned = unblock_domains(content, &domains);
    assert_eq!(cleaned, "  spaced line \n\ttabbed\n\n");
}

#[test]
fn trim_strips_ends_only() {
    assert_eq!(trim("  a.com \t"), "a.com");
    assert_eq!(trim("a.com"), "a.com");
    assert_eq!(trim("a b"), "a b");
    assert_eq!(trim("   "), "");
    assert_eq!(trim(""), "");
    assert_eq!(trim("\u{3000}a\u{3000}"), "a");
    assert_eq!(trim("\r\nx\r\n"), "x");
}

#[test]
fn hosts_path_per_platform() {
    assert_eq!(get_hosts_path(true), "C:\\Windows\\System32\\drivers\\etc\\hosts");
    assert_eq!(get_hosts_path(false), "/etc/hosts");
}
