use asap_core::text::{escape_xml, truncate_text};

#[test]
fn escape_replaces_all_five_metacharacters() {
    assert_eq!(
        escape_xml("a&b<c>d\"e'f"),
        "a&amp;b&lt;c&gt;d&quot;e&#39;f"
    );
}

#[test]
fn escape_leaves_plain_text_alone() {
    assert_eq!(escape_xml("plain label 123"), "plain label 123");
    assert_eq!(escape_xml(""), "");
}

#[test]
fn escape_handles_repeated_and_adjacent_metacharacters() {
    assert_eq!(escape_xml("<<&>>"), "&lt;&lt;&amp;&gt;&gt;");
}

#[test]
fn escape_keeps_non_ascii_characters() {
    assert_eq!(escape_xml("tâche & été"), "tâche &amp; été");
}

#[test]
fn truncate_short_string_unchanged() {
    assert_eq!(truncate_text("abc", 5), "abc");
    assert_eq!(truncate_text("abcde", 5), "abcde");
}

#[test]
fn truncate_long_string_gets_ellipsis() {
    assert_eq!(truncate_text("abcdefgh", 5), "ab...");
    assert_eq!(truncate_text("abcd", 3), "...");
}

#[test]
fn truncate_counts_characters_not_bytes() {
    assert_eq!(truncate_text("ééééé", 5), "ééééé");
    assert_eq!(truncate_text("éééééé", 5), "éé...");
}
