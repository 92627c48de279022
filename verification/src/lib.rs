//! Turning a folder or ZIP archive of images into a fixed-layout EPUB 3 book:
//! the ordering of pages, the choice of the output path, the book's title and
//! reading direction, which image files make pages, capture times, archive
//! limits, and the documents of the book, each with a contract checked by
//! Verus.
use vstd::prelude::*;

pub mod archive;
pub mod capture;
pub mod config;
pub mod decode;
pub mod epub;
pub mod natural;
pub mod order;
pub mod output;
pub mod paths;
pub mod picture;
pub mod plan;
pub mod preview;
pub mod text;
pub mod title;
pub mod tool;

verus! {

} // verus!
