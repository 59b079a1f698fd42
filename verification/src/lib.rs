//! Scrapes a serialized web novel from its index page and packages the
//! chapters, in reading order, as an EPUB document.

pub mod book;
pub mod discovery;
pub mod hitokoto;
pub mod markup;
pub mod order;
pub mod packaging;
pub mod pipeline;
pub mod retrieval;
pub mod text;
pub mod util;
