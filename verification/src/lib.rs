//! Language negotiation and message resolution.
//!
//! A client states the languages it prefers in a header-style string. This
//! library ranks those preferences, selects the matching message bundle from
//! a catalog, and resolves message identifiers to text. Every function here
//! is verified against the contract it carries; what the outside crates do
//! is stated where they are called.

pub mod accept;
pub mod bundle;
pub mod decimal;
pub mod error;
pub mod langid;
pub mod list;
pub mod locale;
pub mod ranking;
pub mod resources;
pub mod template;
pub mod text;

pub use accept::{parse_accept_languages, parse_language, parse_quality};
pub use bundle::{I18NArgs, I18NBundle};
pub use error::I18NError;
pub use langid::LocaleId;
pub use locale::Locale;
pub use list::LanguageArray;
pub use resources::I18NResources;
