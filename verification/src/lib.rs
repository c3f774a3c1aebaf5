//! Extractor for self-contained packaged executables produced by a JavaScript
//! application bundler. Such an executable carries, after an interpreter
//! binary, a bundled script (the content section), raw resource payload bytes
//! (the resource section), a fixed 16-byte sentinel, and two 8-byte
//! little-endian doubles giving the sizes of the two sections. The content
//! section holds a marker token followed by a JSON dictionary mapping file
//! paths to byte ranges of the resource section. This library locates the
//! footer, decodes the size fields, parses the dictionary, and slices out each
//! file's bytes; writing them to disk is left to the caller.

pub mod bytes;
pub mod dict;
pub mod errors;
pub mod extract;
pub mod jsonraw;
pub mod ledouble;
pub mod paths;
pub mod search;
