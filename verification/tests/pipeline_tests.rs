use mediawiki_config::model::{ConfigError, MagicWord, Namespace, NamespaceAlias, NamespaceEntry,
    SiteMetadata};
use mediawiki_config::normalize::create_configuration;
use mediawiki_config::render::render_configuration;

fn s(text: &str) -> String {
    String::from(text)
}

fn namespace_entry(key: &str, alias: &str, canonical: Option<&str>, id: i32) -> NamespaceEntry {
    NamespaceEntry {
        key: s(key),
        namespace: Namespace {
            alias: s(alias),
            canonical: canonical.map(String::from),
            id,
        },
    }
}

fn minimal_metadata() -> SiteMetadata {
    SiteMetadata {
        extension_tags: vec![s("<pre>")],
        link_trail: s("/^([a-z]+)(.*)$/sD"),
        magic_words: vec![MagicWord { name: s("redirect"), aliases: vec![s("#REDIRECT")] }],
        namespace_aliases: vec![],
        namespaces: vec![
            namespace_entry("6", "File", Some("File"), 6),
            namespace_entry("14", "Category", Some("Category"), 14),
        ],
        protocols: vec![s("http://")],
    }
}

const LETTERS: &str = "ABCDEFGHIJKLMNOPQRSTUVWXYZabcdefghijklmnopqrstuvwxyz";

#[test]
fn end_to_end_minimal_payload() {
    let config = create_configuration(&minimal_metadata()).unwrap();
    assert_eq!(config.category_namespaces, vec![s("category")]);
    assert_eq!(config.extension_tags, vec![s("pre")]);
    assert_eq!(config.file_namespaces, vec![s("file")]);
    assert_eq!(config.link_trail, s(LETTERS));
    assert_eq!(config.link_trail.len(), 52);
    assert!(!config.link_trail.contains('-'));
    assert!(config.magic_words.is_empty());
    assert_eq!(config.protocols, vec![s("http://")]);
    assert_eq!(config.redirect_magic_words, vec![s("REDIRECT")]);
    let fragment = render_configuration(&config);
    assert!(fragment.contains("pub fn create_configuration()"));
    assert!(fragment.contains("category_namespaces: &["));
    assert!(fragment.contains("\"category\","));
    assert!(fragment.contains("file_namespaces: &["));
    assert!(fragment.contains("\"file\","));
    assert!(fragment.contains("extension_tags: &["));
    assert!(fragment.contains("\"pre\","));
    assert!(fragment.contains("protocols: &["));
    assert!(fragment.contains("\"http://\","));
    assert!(fragment.contains("redirect_magic_words: &["));
    assert!(fragment.contains("\"REDIRECT\","));
    assert!(fragment.contains(&format!("link_trail: {:?}", LETTERS)));
}

#[test]
fn end_to_end_lowercase_redirect_alias() {
    let mut metadata = minimal_metadata();
    metadata.magic_words = vec![MagicWord { name: s("redirect"), aliases: vec![s("#redirect")] }];
    let config = create_configuration(&metadata).unwrap();
    assert_eq!(config.redirect_magic_words, vec![s("redirect")]);
    let fragment = render_configuration(&config);
    assert!(fragment.contains("\"redirect\","));
}

#[test]
fn invalid_extension_tag_fails() {
    for bad in ["pre", "<Pre>", "<pre", "pre>", "<pr e>", "<>x", "<p2>"] {
        let mut metadata = minimal_metadata();
        metadata.extension_tags = vec![s(bad)];
        assert_eq!(
            create_configuration(&metadata),
            Err(ConfigError::ExtensionTagNotRecognized),
            "tag {:?} should be rejected",
            bad
        );
    }
}

#[test]
fn duplicate_extension_tag_fails() {
    let mut metadata = minimal_metadata();
    metadata.extension_tags = vec![s("<pre>"), s("<ref>"), s("<pre>")];
    assert_eq!(create_configuration(&metadata), Err(ConfigError::DuplicateExtensionTag));
}

#[test]
fn missing_redirect_magic_word_fails() {
    let mut metadata = minimal_metadata();
    metadata.magic_words = vec![MagicWord { name: s("toc"), aliases: vec![s("__TOC__")] }];
    assert_eq!(create_configuration(&metadata), Err(ConfigError::RedirectMagicWordMissing));
}

#[test]
fn duplicate_redirect_magic_word_fails() {
    let mut metadata = minimal_metadata();
    metadata.magic_words = vec![
        MagicWord { name: s("redirect"), aliases: vec![s("#REDIRECT")] },
        MagicWord { name: s("redirect"), aliases: vec![s("#WEITERLEITUNG")] },
    ];
    assert_eq!(create_configuration(&metadata), Err(ConfigError::DuplicateRedirectMagicWord));
}

#[test]
fn redirect_alias_without_hash_fails() {
    let mut metadata = minimal_metadata();
    metadata.magic_words = vec![MagicWord { name: s("redirect"), aliases: vec![s("REDIRECT")] }];
    assert_eq!(create_configuration(&metadata), Err(ConfigError::RedirectAliasNotRecognized));
}

#[test]
fn duplicate_redirect_alias_fails() {
    let mut metadata = minimal_metadata();
    metadata.magic_words = vec![MagicWord {
        name: s("redirect"),
        aliases: vec![s("#REDIRECT"), s("#REDIRECT")],
    }];
    assert_eq!(create_configuration(&metadata), Err(ConfigError::DuplicateRedirectAlias));
}

#[test]
fn empty_behavior_switch_fails() {
    let mut metadata = minimal_metadata();
    metadata.magic_words.push(MagicWord { name: s("toc"), aliases: vec![s("____")] });
    assert_eq!(create_configuration(&metadata), Err(ConfigError::MagicWordAliasNotRecognized));
}

#[test]
fn duplicate_behavior_switch_fails() {
    let mut metadata = minimal_metadata();
    metadata.magic_words.push(MagicWord { name: s("toc"), aliases: vec![s("__TOC__")] });
    metadata.magic_words.push(MagicWord { name: s("toc2"), aliases: vec![s("__TOC__")] });
    assert_eq!(create_configuration(&metadata), Err(ConfigError::DuplicateMagicWord));
}

#[test]
fn unwrapped_magic_word_aliases_are_skipped() {
    let mut metadata = minimal_metadata();
    metadata.magic_words.push(MagicWord {
        name: s("toc"),
        aliases: vec![s("TOC"), s("__TOC__"), s("__"), s("___")],
    });
    let config = create_configuration(&metadata).unwrap();
    assert_eq!(config.magic_words, vec![s("TOC")]);
}

#[test]
fn link_trail_range_expansion() {
    let mut metadata = minimal_metadata();
    metadata.link_trail = s("/^([a-z]+)(.*)$/sD");
    let config = create_configuration(&metadata).unwrap();
    let chars: Vec<char> = config.link_trail.chars().collect();
    assert_eq!(chars.len(), 52);
    let mut sorted = chars.clone();
    sorted.sort();
    sorted.dedup();
    assert_eq!(chars, sorted);
    assert!(!chars.contains(&'-'));
    assert_eq!(config.link_trail, s(LETTERS));
}

#[test]
fn link_trail_unicode_flag_variant() {
    let mut metadata = minimal_metadata();
    metadata.link_trail = s("/^([ab]+)(.*)$/sDu");
    let config = create_configuration(&metadata).unwrap();
    assert_eq!(config.link_trail, s("ab"));
}

#[test]
fn unrecognized_link_trail_fails() {
    for bad in ["", "/^([a-z]+)(.*)$/s", "[a-z]", "/^(a-z]+)(.*)$/sD", "/^([0-9]+)(.*)$/sDx"] {
        let mut metadata = minimal_metadata();
        metadata.link_trail = s(bad);
        assert_eq!(
            create_configuration(&metadata),
            Err(ConfigError::LinkTrailNotRecognized),
            "link trail {:?} should be rejected",
            bad
        );
    }
}

#[test]
fn link_trail_leftover_hyphen_fails() {
    let mut metadata = minimal_metadata();
    metadata.link_trail = s("/^([0-9a-z]+)(.*)$/sD");
    assert_eq!(create_configuration(&metadata), Err(ConfigError::LinkTrailNotRecognized));
}

#[test]
fn namespace_missing_fails() {
    let mut metadata = minimal_metadata();
    metadata.namespaces = vec![namespace_entry("14", "Category", Some("Category"), 14)];
    assert_eq!(create_configuration(&metadata), Err(ConfigError::NamespaceMissing));
    let mut metadata = minimal_metadata();
    metadata.namespaces = vec![namespace_entry("6", "File", Some("File"), 6)];
    assert_eq!(create_configuration(&metadata), Err(ConfigError::NamespaceMissing));
}

#[test]
fn namespace_id_mismatch_fails() {
    let mut metadata = minimal_metadata();
    metadata.namespaces = vec![
        namespace_entry("6", "File", Some("File"), 7),
        namespace_entry("14", "Category", Some("Category"), 14),
    ];
    assert_eq!(create_configuration(&metadata), Err(ConfigError::NamespaceIdMismatch));
}

#[test]
fn namespace_canonical_missing_fails() {
    let mut metadata = minimal_metadata();
    metadata.namespaces = vec![
        namespace_entry("6", "File", None, 6),
        namespace_entry("14", "Category", Some("Category"), 14),
    ];
    assert_eq!(create_configuration(&metadata), Err(ConfigError::NamespaceCanonicalMissing));
}

#[test]
fn duplicate_namespace_alias_fails() {
    let mut metadata = minimal_metadata();
    metadata.namespace_aliases = vec![
        NamespaceAlias { id: 6, alias: s("Image") },
        NamespaceAlias { id: 6, alias: s("IMAGE") },
    ];
    assert_eq!(create_configuration(&metadata), Err(ConfigError::DuplicateNamespaceAlias));
}

#[test]
fn namespace_canonical_and_alias_both_added() {
    let mut metadata = minimal_metadata();
    metadata.namespaces = vec![
        namespace_entry("6", "Datei", Some("File"), 6),
        namespace_entry("14", "Kategorie", Some("Category"), 14),
    ];
    let config = create_configuration(&metadata).unwrap();
    assert_eq!(config.file_namespaces, vec![s("datei"), s("file")]);
    assert_eq!(config.category_namespaces, vec![s("category"), s("kategorie")]);
}

#[test]
fn duplicate_protocol_fails() {
    let mut metadata = minimal_metadata();
    metadata.protocols = vec![s("http://"), s("https://"), s("http://")];
    assert_eq!(create_configuration(&metadata), Err(ConfigError::DuplicateProtocol));
}

#[test]
fn outputs_sorted_and_order_independent() {
    let mut metadata = minimal_metadata();
    metadata.extension_tags = vec![s("<ref>"), s("<pre>"), s("<gallery>")];
    metadata.protocols = vec![s("mailto:"), s("https://"), s("ftp://")];
    metadata.namespace_aliases = vec![
        NamespaceAlias { id: 14, alias: s("Kategorie") },
        NamespaceAlias { id: 6, alias: s("Bild") },
        NamespaceAlias { id: 0, alias: s("Ignored") },
    ];
    metadata.magic_words.push(MagicWord {
        name: s("toc"),
        aliases: vec![s("__TOC__"), s("__INHALT__")],
    });
    let config = create_configuration(&metadata).unwrap();
    assert_eq!(config.extension_tags, vec![s("gallery"), s("pre"), s("ref")]);
    assert_eq!(config.protocols, vec![s("ftp://"), s("https://"), s("mailto:")]);
    assert_eq!(config.file_namespaces, vec![s("bild"), s("file")]);
    assert_eq!(config.category_namespaces, vec![s("category"), s("kategorie")]);
    assert_eq!(config.magic_words, vec![s("INHALT"), s("TOC")]);

    let mut permuted = minimal_metadata();
    permuted.extension_tags = vec![s("<pre>"), s("<gallery>"), s("<ref>")];
    permuted.protocols = vec![s("ftp://"), s("mailto:"), s("https://")];
    permuted.namespace_aliases = vec![
        NamespaceAlias { id: 0, alias: s("Ignored") },
        NamespaceAlias { id: 6, alias: s("Bild") },
        NamespaceAlias { id: 14, alias: s("Kategorie") },
    ];
    permuted.magic_words = vec![
        MagicWord { name: s("toc"), aliases: vec![s("__INHALT__"), s("__TOC__")] },
        MagicWord { name: s("redirect"), aliases: vec![s("#REDIRECT")] },
    ];
    let config2 = create_configuration(&permuted).unwrap();
    assert_eq!(config.extension_tags, config2.extension_tags);
    assert_eq!(config.protocols, config2.protocols);
    assert_eq!(config.file_namespaces, config2.file_namespaces);
    assert_eq!(config.category_namespaces, config2.category_namespaces);
    assert_eq!(config.magic_words, config2.magic_words);
    assert_eq!(config.redirect_magic_words, config2.redirect_magic_words);
}

#[test]
fn error_messages_match_diagnostics() {
    assert_eq!(ConfigError::NamespaceMissing.message(), "Namespace missing.");
    assert_eq!(ConfigError::LinkTrailNotRecognized.message(), "Link trail not recognized");
    assert_eq!(ConfigError::DuplicateProtocol.message(), "Duplicate protocol.");
    assert_eq!(ConfigError::RedirectMagicWordMissing.message(), "Redirect magic word missing.");
}
