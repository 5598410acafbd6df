//! Core logic of a small editor for shell scripts: an indentation
//! reformatter, a highlight classifier that cuts a line into styled regions
//! along the scopes that a grammar-driven tokenizer reports, and the rules
//! behind the editor's view state, its list of recent scripts and the choice
//! of a terminal.

pub mod editor;
pub mod formatter;
pub mod highlight;
pub mod recent;
pub mod reformat_laws;
pub mod scope;
pub mod shell;
pub mod state;
pub mod text;
pub mod text_lemmas;
