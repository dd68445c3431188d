//! Symbol resolution and language-agnostic demangling.
pub mod demangle;
pub mod index;
