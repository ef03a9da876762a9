//! The library of a reader for Habr articles: the requests it sends to the
//! Habr API, the mapping of API responses to the data its views show, and the
//! extraction of an article's content from its HTML.
pub mod article;
pub mod content;
pub mod html;
pub mod hub;
pub mod image_data;
pub mod request;
pub mod text;
pub mod time;
