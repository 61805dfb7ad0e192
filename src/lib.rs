//! Segmentation of an inline markup language: text with directives of the form
//! `$(content, style-list)` is split into an ordered sequence of plain and styled
//! runs, and that sequence can be projected into an HTML string.
pub mod directive;
pub mod html;
pub mod parser;
pub mod text;
