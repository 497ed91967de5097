//! The denote file-naming scheme.
//!
//! A denote name packs a creation timestamp, an optional signature, title,
//! keyword list and extension into one sortable file name:
//!
//! ```text
//! <id>[==<signature>][--<title>][__<keywords>][.<ext>]
//! ```
//!
//! Each field type normalizes its own text and renders itself with its own
//! prefix; [`Denote`] gathers the fields, renders the whole name and parses a
//! name back into its fields.

pub mod answer;
pub mod denote;
pub mod extension;
pub mod format;
pub mod grammar;
pub mod identifier;
pub mod keywords;
pub mod path;
pub mod signature;
pub mod timestamp;
pub mod title;
pub mod unicode;

pub use answer::Answer;
pub use denote::{Denote, DenoteView};
pub use extension::Extension;
pub use format::{first_letter_uppercase, slugify};
pub use identifier::{unic_id, Identifier};
pub use keywords::Keywords;
pub use signature::Signature;
pub use timestamp::{Date, Timestamp};
pub use title::Title;
