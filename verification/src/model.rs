//! The data model: raw site metadata as plain values, the normalized
//! configuration, and the error type.

use vstd::prelude::*;

verus! {

/// One magic word of the raw metadata: a canonical name and its aliases.
pub struct MagicWord {
    pub name: String,
    pub aliases: Vec<String>,
}

/// Mathematical view of a magic word.
pub ghost struct MagicWordView {
    pub name: Seq<char>,
    pub aliases: Seq<Seq<char>>,
}

impl View for MagicWord {
    type V = MagicWordView;

    open spec fn view(&self) -> MagicWordView {
        MagicWordView { name: self.name@, aliases: self.aliases.deep_view() }
    }
}

impl DeepView for MagicWord {
    type V = MagicWordView;

    open spec fn deep_view(&self) -> MagicWordView {
        self.view()
    }
}

/// One namespace of the raw metadata: a display alias, an optional
/// canonical name, and the numeric namespace ID.
pub struct Namespace {
    pub alias: String,
    pub canonical: Option<String>,
    pub id: i32,
}

/// Mathematical view of a namespace.
pub ghost struct NamespaceView {
    pub alias: Seq<char>,
    pub canonical: Option<Seq<char>>,
    pub id: int,
}

impl View for Namespace {
    type V = NamespaceView;

    open spec fn view(&self) -> NamespaceView {
        NamespaceView {
            alias: self.alias@,
            canonical: self.canonical.deep_view(),
            id: self.id as int,
        }
    }
}

impl DeepView for Namespace {
    type V = NamespaceView;

    open spec fn deep_view(&self) -> NamespaceView {
        self.view()
    }
}

/// One entry of the namespace side table: a numeric ID and an alias.
pub struct NamespaceAlias {
    pub id: i32,
    pub alias: String,
}

/// Mathematical view of a namespace alias.
pub ghost struct NamespaceAliasView {
    pub id: int,
    pub alias: Seq<char>,
}

impl View for NamespaceAlias {
    type V = NamespaceAliasView;

    open spec fn view(&self) -> NamespaceAliasView {
        NamespaceAliasView { id: self.id as int, alias: self.alias@ }
    }
}

impl DeepView for NamespaceAlias {
    type V = NamespaceAliasView;

    open spec fn deep_view(&self) -> NamespaceAliasView {
        self.view()
    }
}

/// One entry of the namespace table: the table key (the ID written as a
/// string) and the namespace it maps to.
pub struct NamespaceEntry {
    pub key: String,
    pub namespace: Namespace,
}

/// Mathematical view of a namespace table entry.
pub ghost struct NamespaceEntryView {
    pub key: Seq<char>,
    pub namespace: NamespaceView,
}

impl View for NamespaceEntry {
    type V = NamespaceEntryView;

    open spec fn view(&self) -> NamespaceEntryView {
        NamespaceEntryView { key: self.key@, namespace: self.namespace@ }
    }
}

impl DeepView for NamespaceEntry {
    type V = NamespaceEntryView;

    open spec fn deep_view(&self) -> NamespaceEntryView {
        self.view()
    }
}

/// The raw site metadata, as plain values.
pub struct SiteMetadata {
    pub extension_tags: Vec<String>,
    pub link_trail: String,
    pub magic_words: Vec<MagicWord>,
    pub namespace_aliases: Vec<NamespaceAlias>,
    pub namespaces: Vec<NamespaceEntry>,
    pub protocols: Vec<String>,
}

/// Mathematical view of the raw site metadata.
pub ghost struct SiteMetadataView {
    pub extension_tags: Seq<Seq<char>>,
    pub link_trail: Seq<char>,
    pub magic_words: Seq<MagicWordView>,
    pub namespace_aliases: Seq<NamespaceAliasView>,
    pub namespaces: Seq<NamespaceEntryView>,
    pub protocols: Seq<Seq<char>>,
}

impl View for SiteMetadata {
    type V = SiteMetadataView;

    open spec fn view(&self) -> SiteMetadataView {
        SiteMetadataView {
            extension_tags: self.extension_tags.deep_view(),
            link_trail: self.link_trail@,
            magic_words: self.magic_words.deep_view(),
            namespace_aliases: self.namespace_aliases.deep_view(),
            namespaces: self.namespaces.deep_view(),
            protocols: self.protocols.deep_view(),
        }
    }
}

/// The normalized configuration: six canonical string lists and the
/// link-trail character set.
#[derive(Debug, PartialEq, Eq)]
pub struct NormalizedConfiguration {
    pub category_namespaces: Vec<String>,
    pub extension_tags: Vec<String>,
    pub file_namespaces: Vec<String>,
    pub link_trail: String,
    pub magic_words: Vec<String>,
    pub protocols: Vec<String>,
    pub redirect_magic_words: Vec<String>,
}

/// Mathematical view of the normalized configuration.
pub ghost struct NormalizedConfigurationView {
    pub category_namespaces: Seq<Seq<char>>,
    pub extension_tags: Seq<Seq<char>>,
    pub file_namespaces: Seq<Seq<char>>,
    pub link_trail: Seq<char>,
    pub magic_words: Seq<Seq<char>>,
    pub protocols: Seq<Seq<char>>,
    pub redirect_magic_words: Seq<Seq<char>>,
}

impl View for NormalizedConfiguration {
    type V = NormalizedConfigurationView;

    open spec fn view(&self) -> NormalizedConfigurationView {
        NormalizedConfigurationView {
            category_namespaces: self.category_namespaces.deep_view(),
            extension_tags: self.extension_tags.deep_view(),
            file_namespaces: self.file_namespaces.deep_view(),
            link_trail: self.link_trail@,
            magic_words: self.magic_words.deep_view(),
            protocols: self.protocols.deep_view(),
            redirect_magic_words: self.redirect_magic_words.deep_view(),
        }
    }
}

/// Why normalization rejected the metadata. Each variant corresponds to
/// one validation gate.
#[derive(Clone, Copy, Debug, PartialEq, Eq, Structural)]
pub enum ConfigError {
    ExtensionTagNotRecognized,
    DuplicateExtensionTag,
    LinkTrailNotRecognized,
    DuplicateRedirectMagicWord,
    RedirectAliasNotRecognized,
    DuplicateRedirectAlias,
    MagicWordAliasNotRecognized,
    DuplicateMagicWord,
    RedirectMagicWordMissing,
    DuplicateNamespaceAlias,
    NamespaceMissing,
    NamespaceIdMismatch,
    NamespaceCanonicalMissing,
    DuplicateProtocol,
}

impl ConfigError {
    /// The diagnostic text of this error.
    pub open spec fn text(self) -> Seq<char> {
        match self {
            ConfigError::ExtensionTagNotRecognized => "Extension tag not recognized."@,
            ConfigError::DuplicateExtensionTag => "Duplicate extension_tag."@,
            ConfigError::LinkTrailNotRecognized => "Link trail not recognized"@,
            ConfigError::DuplicateRedirectMagicWord => "Duplicate magic word"@,
            ConfigError::RedirectAliasNotRecognized => "Redirect magic word alias not recognized."@,
            ConfigError::DuplicateRedirectAlias => "Duplicate redirect magic word alias."@,
            ConfigError::MagicWordAliasNotRecognized => "Magic word alias not recognized."@,
            ConfigError::DuplicateMagicWord => "Duplicate magic word."@,
            ConfigError::RedirectMagicWordMissing => "Redirect magic word missing."@,
            ConfigError::DuplicateNamespaceAlias => "Duplicate namespace alias."@,
            ConfigError::NamespaceMissing => "Namespace missing."@,
            ConfigError::NamespaceIdMismatch => "Namespace ID does not match."@,
            ConfigError::NamespaceCanonicalMissing => "Namespace canonical name missing."@,
            ConfigError::DuplicateProtocol => "Duplicate protocol."@,
        }
    }

    /// The diagnostic message of this error, for the caller to report.
    pub fn message(&self) -> (r: &'static str)
        ensures
            r@ == self.text(),
    {
        match self {
            ConfigError::ExtensionTagNotRecognized => "Extension tag not recognized.",
            ConfigError::DuplicateExtensionTag => "Duplicate extension_tag.",
            ConfigError::LinkTrailNotRecognized => "Link trail not recognized",
            ConfigError::DuplicateRedirectMagicWord => "Duplicate magic word",
            ConfigError::RedirectAliasNotRecognized => "Redirect magic word alias not recognized.",
            ConfigError::DuplicateRedirectAlias => "Duplicate redirect magic word alias.",
            ConfigError::MagicWordAliasNotRecognized => "Magic word alias not recognized.",
            ConfigError::DuplicateMagicWord => "Duplicate magic word.",
            ConfigError::RedirectMagicWordMissing => "Redirect magic word missing.",
            ConfigError::DuplicateNamespaceAlias => "Duplicate namespace alias.",
            ConfigError::NamespaceMissing => "Namespace missing.",
            ConfigError::NamespaceIdMismatch => "Namespace ID does not match.",
            ConfigError::NamespaceCanonicalMissing => "Namespace canonical name missing.",
            ConfigError::DuplicateProtocol => "Duplicate protocol.",
        }
    }
}

} // verus!
