//! Keeps a JSON translation dictionary in step with the translation keys that
//! UI source files use.
//!
//! The library finds the translation call sites of a source text, qualifies
//! their keys with the namespace that the file declares, collects the keys of
//! all files in an ordered set, and adds a placeholder entry to the dictionary
//! for every key that it lacks.
//!
//! Two modules state what is taken on trust from other crates: `pattern`, the
//! searches of the regex engine, and `json`, the reading, holding and writing
//! of the dictionary. Everything else is proved against those contracts.

pub mod dictionary;
pub mod extract;
pub mod json;
pub mod keys;
pub mod pattern;
pub mod scan;
pub mod text;
