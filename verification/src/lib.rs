//! Strips a single enclosing `object wrapper ... { ... }` construct from
//! Scala-tagged fenced code blocks in CommonMark documents, leaving every
//! other part of the document unchanged.

pub mod book;
pub mod events;
pub mod filter;
pub mod laws;
pub mod lines;
pub mod matcher;
pub mod preprocess;

pub use book::{Book, BookItem, Chapter};
pub use matcher::{wrapper_close, wrapper_open};
pub use preprocess::{Error, ScalaWrapperPreprocessor};
