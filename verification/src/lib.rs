//! Reproducible application bundles: a content-addressed download cache and a
//! manifest-compile / container-pack / container-expand engine built on it.

use vstd::prelude::*;

pub mod actions;
pub mod archive;
pub mod cache;
pub mod codec;
pub mod compile;
pub mod expand;
pub mod hashing;
pub mod hexstr;
pub mod laws;
pub mod manifest;
pub mod modrinth;
pub mod pack;
pub mod strutil;
pub mod template;

verus! {

/// File extension conventionally used for uncompressed containers.
pub const EXTENSION: &'static str = "jpk";

/// File extension conventionally used for zlib-compressed containers.
pub const EXTENSION_COMPRESSED: &'static str = "jpz";

/// Character-sequence equality on string slices.
/// Relies on str's `==`, which compares the underlying text.
#[verifier::external_body]
pub(crate) fn str_eq(a: &str, b: &str) -> (r: bool)
    ensures
        r == (a@ == b@),
{
    a == b
}

/// Whole-stream compression applied around a container.
#[derive(Clone, Copy, PartialEq, Eq, Debug)]
pub enum Compression {
    Plain,
    Zlib,
}

/// Chooses the compression for a container file: an explicit choice wins;
/// otherwise the file extension decides, defaulting to no compression.
pub fn parse_compression(choice: Option<Compression>, extension: Option<&str>) -> (r: Compression)
    ensures
        choice is Some ==> r == choice->0,
        choice is None && extension is Some && extension->0@ == "jpz"@ ==> r is Zlib,
        choice is None && (extension is None || extension->0@ != "jpz"@) ==> r is Plain,
{
    match choice {
        Some(c) => c,
        None => match extension {
            Some(ext) => {
                if str_eq(ext, "jpz") {
                    Compression::Zlib
                } else {
                    Compression::Plain
                }
            },
            None => Compression::Plain,
        },
    }
}

} // verus!
