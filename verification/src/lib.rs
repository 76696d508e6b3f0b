//! The verified core of Model Radar, a bot that watches a catalog of language models.
//!
//! The library holds what the bot decides: which models are free, how a catalog is validated
//! and compared with the one before, what a subscription wants, what is shown of a catalog,
//! and how the bot's state is loaded and committed. Files, the network and the chat service
//! are left to the program around it.

pub mod catalog;
pub mod catalog_laws;
pub mod decimal_zero;
pub mod discord;
pub mod escaping;
pub mod ordered_map;
pub mod presentation;
pub mod presentation_laws;
pub mod store;
pub mod store_laws;
pub mod strings;
pub mod text_laws;
