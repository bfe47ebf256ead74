//! A macro-expansion engine for a TeX-like textual macro language.
//!
//! The pipeline strips `%` comments from each input text, concatenates the
//! results into one document, expands backslash directives (`\def`, `\undef`,
//! `\if`, `\ifdef`, `\expandafter`, file inclusion and user macro calls) over
//! it, and finally collapses the backslash runs that survived expansion.
//! Every pass shares one escape-parity rule: a character is escaped when an
//! odd number of consecutive backslashes stands directly before it.

pub mod scan;
pub mod errors;
pub mod table;
pub mod brace;
pub mod comments;
pub mod subst;
pub mod normalize;
pub mod files;
pub mod engine;
