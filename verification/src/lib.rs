//! Verified core of a Markdown-to-HTML converter with wiki-style extensions.
//!
//! The library covers the extension layer on top of a host CommonMark
//! pipeline: the `[[display|target]]` inline scanner, the filename
//! canonicaliser behind those links, the safe-content marker scanner and its
//! filter pass, the cross-document link validator, and the configuration
//! record that binds them. Documents are handled as UTF-8 byte sequences;
//! every rule of the extension syntax is decided by ASCII bytes. The host
//! CommonMark parser and renderer, the command line, and all file handling
//! stay outside the library.

pub mod bytes;
pub mod canon;
pub mod input;
pub mod pipeline;
pub mod safe;
pub mod validate_links;
pub mod wikilinks;
