//! Tests of the text that `add` appends to a pending list.

use proxylists::sites::add_payload;

fn payload_string(sites: &str) -> String {
    add_payload(sites).into_iter().collect()
}

#[test]
fn example_site_list_is_normalized() {
    assert_eq!(
        payload_string("http://a.com/x,https://b.com,  ,c.org"),
        "\n.a.com\n.b.com\n.c.org"
    );
}

#[test]
fn blank_pieces_are_discarded() {
    assert_eq!(payload_string("a, ,b"), "\n.a\n.b");
}

#[test]
fn scheme_prefix_is_stripped() {
    assert_eq!(payload_string("https://example.com"), "\n.example.com");
    assert_eq!(payload_string("http://example.com"), "\n.example.com");
}

#[test]
fn scheme_occurrence_is_stripped_anywhere() {
    assert_eq!(payload_string("foohttp://bar"), "\n.foobar");
}

#[test]
fn removal_does_not_rescan_spliced_text() {
    // Removing "http://" from "htthttp://p://x" splices "htt" onto "p://x",
    // recreating the scheme text; it is not removed again, and the first
    // "/" of what remains truncates the entry.
    assert_eq!(payload_string("htthttp://p://x"), "\n.http:");
}

#[test]
fn path_after_host_is_dropped() {
    assert_eq!(payload_string("example.com/path"), "\n.example.com");
    assert_eq!(payload_string("example.com/a/b/c"), "\n.example.com");
}

#[test]
fn entry_gains_a_leading_dot() {
    assert_eq!(payload_string("example.com"), "\n.example.com");
}

#[test]
fn entry_keeps_a_dot_it_already_had() {
    assert_eq!(payload_string(".example.com"), "\n..example.com");
}

#[test]
fn surrounding_whitespace_is_trimmed() {
    assert_eq!(payload_string("  a.com \t,\nb.org "), "\n.a.com\n.b.org");
}

#[test]
fn unicode_whitespace_is_trimmed() {
    assert_eq!(payload_string("\u{000B}"), "");
    assert_eq!(payload_string("\u{00A0}\u{2028}"), "");
    assert_eq!(payload_string("\u{00A0}a.com\u{2003}"), "\n.a.com");
    assert_eq!(payload_string("\u{3000}, x"), "\n.x");
}

#[test]
fn empty_site_list_appends_nothing() {
    assert_eq!(payload_string(""), "");
    assert_eq!(payload_string("   "), "");
    assert_eq!(payload_string(" , ,, "), "");
}

#[test]
fn scheme_only_piece_leaves_a_bare_dot() {
    assert_eq!(payload_string("http://"), "\n.");
}

#[test]
fn two_adds_append_in_call_order() {
    let mut pending = String::new();
    pending.push_str(&payload_string("a.com,b.org"));
    pending.push_str(&payload_string("c.net"));
    assert_eq!(pending, "\n.a.com\n.b.org\n.c.net");
}
