//! The logic of a document and image viewer: what a document is and how its
//! pages are found, which rendered pages stay resident, how key, wheel and
//! pointer events turn into commands, and what is written on screen.

pub mod collection;
pub mod document;
pub mod frame;
pub mod input;
pub mod path;
pub mod pdfinfo;
pub mod raster;
pub mod render;
pub mod store;
pub mod text;
pub mod tool;
pub mod viewer;
