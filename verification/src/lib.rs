//! The headless reader of Lottie documents and the text the web player is handed.
//!
//! [`model`] reads a document's top-level facts, layers, assets and markers, with every number
//! kept as the shortest decimal of the float serde_json reads it as, and lists what a player would refuse. [`web`]
//! writes what the web-view player's page is told: its query string and the calls evaluated in
//! it. [`summary`] sums up a document's layers in a few words.

pub mod digits;
pub mod issue_laws;
pub mod json;
pub mod laws;
pub mod model;
pub mod number;
pub mod page_laws;
pub mod reader_laws;
pub mod report;
pub mod summary;
pub mod summary_laws;
pub mod text;
pub mod web;

pub use crate::model::LottieModel;
pub use crate::number::Num;
