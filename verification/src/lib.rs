//! A line-oriented configuration language: `key = value` assignments plus
//! directives (`@import`, `@derive`, `@schema`, `@type`) that compose
//! documents, declare typed schemas and validate values against them.
//!
//! - [`aaml`] holds the document: reading text into it, validation
//!   against schemas, and lookup;
//! - [`commands`] holds the four directives;
//! - [`types`] holds the built-in types and their value grammars;
//! - [`table`] is the insertion-ordered map that documents are made of;
//! - [`text`] holds character classes, trimming and splitting;
//! - [`error`], [`found_value`] and [`builder`] hold the error type,
//!   the result of a lookup, and a writer of documents.
//!
//! Texts are specified as sequences of characters. Each function has
//! a specification function that says what it returns, and is proved
//! to return that.
//!
//! The library reads no file. A document is handed the text of the
//! files that its directives may name, as a table from path to text,
//! and reports the first path that it does not find there.

pub mod aaml;
pub mod builder;
pub mod commands;
pub mod error;
pub mod found_value;
pub mod table;
pub mod text;
pub mod types;
