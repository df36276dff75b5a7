//! Which files of a source tree are scanned.

use vstd::prelude::*;
use crate::text::str_eq;

verus! {

/// Whether `extension` is one of the four extensions of UI source files:
/// JavaScript and TypeScript, each plain and with markup.
pub open spec fn source_extension(extension: Seq<char>) -> bool {
    ||| extension == "jsx"@
    ||| extension == "tsx"@
    ||| extension == "js"@
    ||| extension == "ts"@
}

/// Whether a file with this extension, given without its dot, is scanned.
pub fn is_source_extension(extension: &str) -> (r: bool)
    ensures
        r == source_extension(extension@),
{
    str_eq(extension, "jsx") || str_eq(extension, "tsx") || str_eq(extension, "js") || str_eq(
        extension,
        "ts",
    )
}

/// What the scanner does with a path.
#[derive(Clone, Copy, Debug, PartialEq, Eq, Structural)]
pub enum Visit {
    /// A directory: every entry below it is visited in turn.
    Descend,
    /// A UI source file: its text is read and searched for keys.
    Extract,
    /// Any other file: it contributes no keys.
    Skip,
}

/// What the scanner does with a path, given whether it names a directory and,
/// for a file, its extension without the dot (empty where it has none).
pub fn visit(is_directory: bool, extension: &str) -> (r: Visit)
    ensures
        r == if is_directory {
            Visit::Descend
        } else if source_extension(extension@) {
            Visit::Extract
        } else {
            Visit::Skip
        },
{
    if is_directory {
        Visit::Descend
    } else if is_source_extension(extension) {
        Visit::Extract
    } else {
        Visit::Skip
    }
}

} // verus!
