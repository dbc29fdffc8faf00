//! Export of markdown notes: diagram blocks, titles, the HTML document around
//! the rendered body, and the steps of printing that document to PDF.

pub mod convert;
pub mod diagram;
pub mod document;
pub mod export;
pub mod fences;
pub mod format;
pub mod markdown;
pub mod render;
pub mod roundtrip;
pub mod store;
pub mod template;
pub mod text;
pub mod title;
