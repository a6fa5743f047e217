//! Translating a nested localization dictionary text by text.
//!
//! A run walks a JSON document, asks a translation service for every text
//! in it, one signed request at a time, and builds a tree of the same shape
//! with the translations in place. The library decides what is sent and
//! what is built; sending, waiting and the files are its caller's.

pub mod codec;
pub mod decimal;
pub mod error;
pub mod json;
pub mod request;
pub mod response;
pub mod sign;
pub mod tree;
pub mod truncate;
pub mod walk;
