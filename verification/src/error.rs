//! The failures that building a catalog and resolving a message can end in.

use vstd::prelude::*;

verus! {

/// What the language tag parser reports of a tag it refuses.
#[verifier::external_type_specification]
#[verifier::external_body]
pub struct ExLanguageIdentifierError(unic_langid::LanguageIdentifierError);

/// What the template engine reports of a message it could not add or format.
#[verifier::external_type_specification]
#[verifier::external_body]
pub struct ExFluentError(fluent::FluentError);

/// What the template parser reports of a source it could not read.
#[verifier::external_type_specification]
#[verifier::external_body]
pub struct ExParserError(fluent_syntax::parser::ParserError);

/// What the system reports of a source that could not be loaded.
#[verifier::external_type_specification]
#[verifier::external_body]
pub struct ExIoError(std::io::Error);

/// A failure of this library. None of them ends the process: each is handed
/// to the caller.
#[derive(Debug)]
pub enum I18NError {
    /// The template engine failed on a message: its reports, at least one.
    Fluent(Vec<fluent::FluentError>),
    /// The source of a bundle is no valid template text: the parser's
    /// reports.
    FluentParser(Vec<fluent_syntax::parser::ParserError>),
    /// The message exists and has no value to render.
    FluentNoValue,
    /// The bundle holds no message of this identifier.
    FluentMessageNotFound {
        /// The identifier that was asked for.
        id: String,
    },
    /// A language tag is not well formed.
    LanguageIdentifier(unic_langid::LanguageIdentifierError),
    /// A source could not be loaded.
    Io(std::io::Error),
}

} // verus!
