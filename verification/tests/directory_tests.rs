use translate_bot::directory::LanguageDirectory;

fn pairs(input: &[(&str, &str)]) -> Vec<(String, String)> {
    input.iter().map(|(n, c)| (n.to_string(), c.to_string())).collect()
}

#[test]
fn resolve_present_name_returns_mapped_code() {
    let d = LanguageDirectory::new(pairs(&[("French", "fr"), ("Spanish", "es")]));
    assert_eq!(d.resolve("French"), "fr");
    assert_eq!(d.resolve("Spanish"), "es");
}

#[test]
fn resolve_absent_token_passes_through() {
    let d = LanguageDirectory::new(pairs(&[("French", "fr"), ("Spanish", "es")]));
    assert_eq!(d.resolve("xx"), "xx");
    assert_eq!(d.resolve("fr"), "fr");
    assert_eq!(d.resolve(""), "");
}

#[test]
fn resolve_on_empty_directory_passes_through() {
    let d = LanguageDirectory::new(Vec::new());
    assert_eq!(d.len(), 0);
    assert_eq!(d.resolve("French"), "French");
}

#[test]
fn repeated_name_keeps_later_code_and_one_entry() {
    let d = LanguageDirectory::new(pairs(&[("French", "fr"), ("French", "fx")]));
    assert_eq!(d.len(), 1);
    assert_eq!(d.resolve("French"), "fx");
    assert_eq!(d.names(), vec!["French".to_string()]);
}

#[test]
fn names_lists_every_key_once() {
    let d = LanguageDirectory::new(pairs(&[("French", "fr"), ("Spanish", "es"), ("German", "de")]));
    assert_eq!(
        d.names(),
        vec!["French".to_string(), "Spanish".to_string(), "German".to_string()]
    );
}
