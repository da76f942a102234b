//! A compiler for maskfiles: Markdown documents whose headings declare the
//! commands of a task runner.
//!
//! [`parse`] reads the text of a document and gives the tree of its
//! commands. On the way, [`markdown`] reads the events of the document,
//! [`extract`] makes of them the flat list of commands in document order,
//! with the help of [`heading`] for the text of a heading and of
//! [`options`] for the items of an options list, and [`treeify`] nests the
//! list into a tree. [`maskfile`] holds the command model, [`launch`] what
//! it takes to run a command. [`tree_laws`] and [`compile_laws`] state what
//! holds of every tree and of every compiled maskfile.

pub mod compile_laws;
pub mod extract;
pub mod heading;
pub mod launch;
pub mod markdown;
pub mod maskfile;
pub mod options;
pub mod parser;
pub mod text;
pub mod tree_laws;
pub mod treeify;

pub use parser::parse;
