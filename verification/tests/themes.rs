use theme_switch::themes::collect_themes;

#[test]
fn three_readable_one_unreadable() {
    // the unreadable entry is skipped, not fatal
    let entries = vec![
        Some("gruvbox.toml".to_string()),
        None,
        Some("nord.toml".to_string()),
        Some("dracula.toml".to_string()),
    ];
    let themes = collect_themes(&entries);
    assert_eq!(themes.len(), 3);
    assert_eq!(themes, vec!["gruvbox.toml", "nord.toml", "dracula.toml"]);
}

#[test]
fn all_entries_readable() {
    let entries = vec![Some("a".to_string()), Some("b".to_string())];
    assert_eq!(collect_themes(&entries), vec!["a", "b"]);
}

#[test]
fn no_entries() {
    let entries: Vec<Option<String>> = Vec::new();
    assert!(collect_themes(&entries).is_empty());
}

#[test]
fn all_entries_unreadable() {
    let entries: Vec<Option<String>> = vec![None, None];
    assert!(collect_themes(&entries).is_empty());
}
