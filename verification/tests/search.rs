use tinta_core::search::{join_strings, search_query, title_entry, SearchKind};

#[test]
fn queries_become_prefix_terms() {
    assert_eq!(search_query("  Weekly   sync\t"), Some("\"Weekly\"* \"sync\"*".to_string()));
    assert_eq!(search_query("o'clock \"q3\""), Some("\"oclock\"* \"q3\"*".to_string()));
    assert_eq!(search_query(" -- !! "), None);
    assert_eq!(search_query(""), None);
    assert_eq!(search_query("día\u{2003}más"), Some("\"día\"* \"más\"*".to_string()));
}

#[test]
fn index_entries() {
    assert_eq!(title_entry("Audit kickoff", Some("Clients"), &["audit".to_string(), "q3".to_string()]), "Audit kickoff Clients audit q3");
    assert_eq!(title_entry("Sync", None, &[]), "Sync  ");
    assert_eq!(join_strings(&["a".to_string(), "b".to_string()], "\n"), "a\nb");
    let kinds: Vec<&str> = SearchKind::all().iter().map(|k| k.name()).collect();
    assert_eq!(kinds, vec!["title", "notes", "summary", "speakers", "transcript"]);
}
