//! Schema inference and structure-preserving config documents for Ghostty.
//!
//! The crate parses the option dump produced by `ghostty +show-config
//! --default --docs` into a typed schema (inferring each option's value type,
//! UI category and repeatability), and models a user's config file as an
//! ordered sequence of comment, blank and key-value lines that can be
//! queried, edited and serialized without disturbing its structure.

pub mod actions;
pub mod categorize;
pub mod chars;
pub mod config_text;
pub mod error;
pub mod fonts;
pub mod html;
pub mod keybinds;
pub mod model;
pub mod parser;
pub mod themes;
pub mod type_inference;
pub mod validate;
