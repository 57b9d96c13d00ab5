//! Parsing and variable substitution for plain-text HTTP request files.
//!
//! The library understands two dialects of the request-file grammar (the
//! JetBrains HTTP Client dialect and the VS Code REST Client dialect),
//! detects which one a document uses, parses the document into a sequence
//! of structured requests, and resolves `{{name}}` placeholders against a
//! table of variables.

pub mod classify;
pub mod curl;
pub mod detect;
pub mod envfile;
pub mod httpmodel;
pub mod jetbrains;
pub mod laws;
pub mod oidc;
pub mod strmap;
pub mod subst;
pub mod text;
pub mod trusted;
pub mod types;
pub mod vscode;
pub mod watchpath;
