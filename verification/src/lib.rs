//! Validation and normalization of MediaWiki site metadata.
//!
//! The library takes the fields of a wiki's `siteinfo` response as plain
//! values, checks them against the structural conventions MediaWiki
//! promises, and produces a canonical configuration: sorted, duplicate-free
//! lists of namespace names, extension tags, magic words and protocols,
//! together with the expanded link-trail character set. It also renders the
//! configuration as a source-code fragment. Fetching the metadata and
//! writing the fragment out are left to the surrounding program.

pub mod laws;
pub mod model;
pub mod normalize;
pub mod order;
pub mod render;
pub mod textops;
