//! A static content server's assembly pipeline: files are resolved, rewritten by
//! ordered literal replacements whose replacement text is a template with
//! `{name}` placeholders, optionally renamed, and collected into an immutable
//! name-to-content store served over GET.
pub mod assembly;
pub mod source;
pub mod table;
pub mod template;
pub mod text;
