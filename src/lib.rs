//! Debian control-file parsing: a stanza scanner, typed field access, a
//! dependency-expression parser and the package assembler built on them.

pub mod deps;
pub mod error;
pub mod package;
pub mod rfc822;
pub mod sources_list;
pub mod text;
pub mod types;
pub mod values;

