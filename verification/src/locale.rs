//! The answer to one request: the bundle that was chosen for the client.

use crate::accept::{parse_accept_languages, ranked};
use crate::bundle::{rendering, valued, I18NArgs, I18NBundle};
use crate::error::I18NError;
use crate::list::LanguageArray;
use crate::resources::I18NResources;
use vstd::prelude::*;

verus! {

/// The languages that a request asks for, best first: those that its
/// `Accept-Language` value states, or none where it has no such value.
pub open spec fn requested(accept_language: Option<&str>) -> Seq<Seq<char>> {
    match accept_language {
        Some(value) => ranked(value@),
        None => Seq::empty(),
    }
}

/// The bundle that answers one client.
pub struct Locale {
    bundle: I18NBundle,
}

impl Locale {
    /// The bundle that was chosen.
    pub closed spec fn chosen(&self) -> I18NBundle {
        self.bundle
    }

    /// Chooses the bundle for a request from its `Accept-Language` value,
    /// if it has one: the bundle of the best language that it asks for and
    /// the catalog has, else the default bundle.
    pub fn negotiate(resources: &I18NResources, accept_language: Option<&str>) -> (locale: Locale)
        ensures
            locale.chosen() == resources.bundle_of(
                resources.selected(requested(accept_language)),
            ),
            locale.chosen().locale_tag() == resources.selected(requested(accept_language)),
    {
        let preferences: LanguageArray = match accept_language {
            Some(value) => parse_accept_languages(value),
            None => LanguageArray::new(),
        };
        Locale { bundle: resources.negotiate_languages(&preferences) }
    }

    /// The bundle that was chosen.
    pub fn bundle(&self) -> (bundle: &I18NBundle)
        ensures
            *bundle == self.chosen(),
    {
        &self.bundle
    }

    /// Gets the text of the message `id`, rendered with `args`.
    ///
    /// It fails with `FluentMessageNotFound` exactly where the bundle holds
    /// no such message; with `FluentNoValue` exactly where the message has
    /// no value; with `Fluent` exactly where the engine reports errors. Else
    /// the result is the engine's text, unchanged.
    pub fn text_with_args(&self, id: &str, args: &I18NArgs) -> (r: Result<String, I18NError>)
        ensures
            !self.chosen().ids().contains(id@) <==> (r matches Err(
                I18NError::FluentMessageNotFound { id: asked },
            ) && asked@ == id@),
            (self.chosen().ids().contains(id@) && !valued(self.chosen().messages(), id@)) <==> r
                matches Err(I18NError::FluentNoValue),
            r is Ok <==> self.chosen().ids().contains(id@) && valued(
                self.chosen().messages(),
                id@,
            ) && rendering(self.chosen().messages(), id@, Some(args@)).1 == 0,
            r matches Ok(text) ==> text@ == rendering(
                self.chosen().messages(),
                id@,
                Some(args@),
            ).0,
            r matches Err(I18NError::Fluent(_)) <==> self.chosen().ids().contains(id@) && valued(
                self.chosen().messages(),
                id@,
            ) && rendering(self.chosen().messages(), id@, Some(args@)).1 > 0,
            r matches Err(I18NError::Fluent(errors)) ==> errors@.len() == rendering(
                self.chosen().messages(),
                id@,
                Some(args@),
            ).1,
    {
        self.bundle.text_with_args(id, args)
    }

    /// Gets the text of the message `id`, which takes no arguments.
    ///
    /// It fails as `text_with_args` does.
    pub fn text(&self, id: &str) -> (r: Result<String, I18NError>)
        ensures
            !self.chosen().ids().contains(id@) <==> (r matches Err(
                I18NError::FluentMessageNotFound { id: asked },
            ) && asked@ == id@),
            (self.chosen().ids().contains(id@) && !valued(self.chosen().messages(), id@)) <==> r
                matches Err(I18NError::FluentNoValue),
            r is Ok <==> self.chosen().ids().contains(id@) && valued(
                self.chosen().messages(),
                id@,
            ) && rendering(self.chosen().messages(), id@, None).1 == 0,
            r matches Ok(text) ==> text@ == rendering(self.chosen().messages(), id@, None).0,
            r matches Err(I18NError::Fluent(_)) <==> self.chosen().ids().contains(id@) && valued(
                self.chosen().messages(),
                id@,
            ) && rendering(self.chosen().messages(), id@, None).1 > 0,
            r matches Err(I18NError::Fluent(errors)) ==> errors@.len() == rendering(
                self.chosen().messages(),
                id@,
                None,
            ).1,
    {
        self.bundle.text(id)
    }
}

} // verus!
