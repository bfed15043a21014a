//! A compiler for a small nested markup-and-style language.
//!
//! Source text is tokenized ([`lexer::Lexer`]), parsed into a tree of
//! selectors and style rulesets ([`parser::Parser`]), and rendered to HTML
//! with inline `<style>` blocks ([`ast::ASTNode::to_html`]). The character
//! classes of the grammar live in [`chars`], and [`laws`] states and proves
//! the properties that hold of the whole pipeline.

pub mod ast;
pub mod chars;
pub mod laws;
pub mod parser;
pub mod lexer;
