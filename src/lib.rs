//! A terminal text editor's core: documents held as flat cell sequences with a cursor,
//! a character grid that they are painted on, and a rule-driven syntax highlighter.

pub mod document;
mod strings;
pub mod grid;
pub mod highlight;
pub mod editor;
