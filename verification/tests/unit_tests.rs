use mediawiki_config::model::{ConfigError, MagicWord, Namespace};
use mediawiki_config::normalize::{add_namespace, check_protocols, collect_magic_words,
    collect_namespace_aliases, normalize_extension_tags, parse_link_trail};
use mediawiki_config::order::{contains_str, sort_strings, str_eq, str_le};

fn s(text: &str) -> String {
    String::from(text)
}

#[test]
fn string_order_is_lexicographic() {
    assert!(str_le("", "a"));
    assert!(str_le("a", "a"));
    assert!(str_le("a", "ab"));
    assert!(!str_le("ab", "a"));
    assert!(str_le("Z", "a"));
    assert!(!str_le("b", "ab"));
    assert!(str_eq("abc", "abc"));
    assert!(!str_eq("abc", "abd"));
    assert!(!str_eq("abc", "ab"));
}

#[test]
fn sort_strings_orders_and_keeps_elements() {
    let input = vec![s("mailto:"), s("ftp://"), s("https://"), s("ftp://")];
    let sorted = sort_strings(&input);
    assert_eq!(sorted, vec![s("ftp://"), s("ftp://"), s("https://"), s("mailto:")]);
    assert!(contains_str(&sorted, "mailto:"));
    assert!(!contains_str(&sorted, "gopher://"));
}

#[test]
fn normalize_extension_tags_strips_delimiters() {
    let tags = vec![s("<ref>"), s("<pre>")];
    assert_eq!(normalize_extension_tags(&tags), Ok(vec![s("ref"), s("pre")]));
    let empty_interior = vec![s("<>")];
    assert_eq!(normalize_extension_tags(&empty_interior), Ok(vec![s("")]));
    let bad = vec![s("<a b>")];
    assert_eq!(normalize_extension_tags(&bad), Err(ConfigError::ExtensionTagNotRecognized));
}

#[test]
fn parse_link_trail_expands_and_rejects() {
    assert_eq!(
        parse_link_trail("/^([a-z]+)(.*)$/sD"),
        Ok(s("ABCDEFGHIJKLMNOPQRSTUVWXYZabcdefghijklmnopqrstuvwxyz"))
    );
    assert_eq!(parse_link_trail("/^([xyz]+)(.*)$/sDu"), Ok(s("xyz")));
    assert_eq!(parse_link_trail("/^([]+)(.*)$/sD"), Ok(s("")));
    assert_eq!(parse_link_trail("nonsense"), Err(ConfigError::LinkTrailNotRecognized));
    assert_eq!(parse_link_trail("/^([a-b]+)(.*)$/sD"), Err(ConfigError::LinkTrailNotRecognized));
}

#[test]
fn collect_magic_words_splits_lists() {
    let words = vec![
        MagicWord { name: s("toc"), aliases: vec![s("__TOC__"), s("plain")] },
        MagicWord { name: s("redirect"), aliases: vec![s("#REDIRECT"), s("#OMDIRIGERING")] },
    ];
    let (switches, redirects) = collect_magic_words(&words).unwrap();
    assert_eq!(switches, vec![s("TOC")]);
    assert_eq!(redirects, vec![s("REDIRECT"), s("OMDIRIGERING")]);
}

#[test]
fn collect_namespace_aliases_filters_and_lowercases() {
    let entries = vec![
        mediawiki_config::model::NamespaceAlias { id: 6, alias: s("Image") },
        mediawiki_config::model::NamespaceAlias { id: 14, alias: s("CAT") },
        mediawiki_config::model::NamespaceAlias { id: 2, alias: s("User") },
    ];
    let (file, category) = collect_namespace_aliases(&entries).unwrap();
    assert_eq!(file, vec![s("image")]);
    assert_eq!(category, vec![s("cat")]);
}

#[test]
fn add_namespace_appends_canonical_then_alias() {
    let mut list = vec![s("bild")];
    let namespace = Namespace { alias: s("Datei"), canonical: Some(s("File")), id: 6 };
    assert_eq!(add_namespace(&mut list, Some(&namespace), 6), Ok(()));
    assert_eq!(list, vec![s("bild"), s("file"), s("datei")]);
}

#[test]
fn add_namespace_rejects_each_violation() {
    let mut list: Vec<String> = vec![];
    assert_eq!(add_namespace(&mut list, None, 6), Err(ConfigError::NamespaceMissing));
    let wrong_id = Namespace { alias: s("File"), canonical: Some(s("File")), id: 5 };
    assert_eq!(add_namespace(&mut list, Some(&wrong_id), 6), Err(ConfigError::NamespaceIdMismatch));
    let no_canonical = Namespace { alias: s("File"), canonical: None, id: 6 };
    assert_eq!(
        add_namespace(&mut list, Some(&no_canonical), 6),
        Err(ConfigError::NamespaceCanonicalMissing)
    );
    let mut occupied = vec![s("file")];
    let duplicate = Namespace { alias: s("FILE"), canonical: Some(s("File")), id: 6 };
    assert_eq!(
        add_namespace(&mut occupied, Some(&duplicate), 6),
        Err(ConfigError::DuplicateNamespaceAlias)
    );
    assert_eq!(occupied, vec![s("file")]);
}

#[test]
fn check_protocols_sorts_and_rejects_duplicates() {
    let protocols = vec![s("mailto:"), s("ftp://"), s("https://")];
    assert_eq!(check_protocols(&protocols), Ok(vec![s("ftp://"), s("https://"), s("mailto:")]));
    let duplicated = vec![s("https://"), s("ftp://"), s("https://")];
    assert_eq!(check_protocols(&duplicated), Err(ConfigError::DuplicateProtocol));
}
