//! Language identifiers.
//!
//! An identifier is held as the canonical text of its tag: subtags joined by
//! `-`, each in its standard case. Two identifiers are equal exactly when
//! these texts are.

use crate::error::I18NError;
use unic_langid::LanguageIdentifierError;
use vstd::prelude::*;

verus! {

/// The canonical text of the language tag `tag`, where `tag` is well formed.
pub uninterp spec fn canonical_tag(tag: Seq<char>) -> Option<Seq<char>>;

/// Calls `unic_langid::canonicalize`, which parses a tag as
/// `LanguageIdentifier::from_str` does and writes the identifier out again.
/// The text that comes back is what `canonical_tag` names. A tag that parses
/// starts with a language subtag, which has two letters at least.
#[verifier::external_body]
fn canonicalize(tag: &str) -> (r: Result<String, LanguageIdentifierError>)
    ensures
        match r {
            Ok(text) => canonical_tag(tag@) == Some(text@),
            Err(_) => canonical_tag(tag@) is None,
        },
        r is Ok ==> tag@.len() >= 2,
{
    unic_langid::canonicalize(tag)
}

/// A validated language identifier.
#[derive(Debug)]
pub struct LocaleId {
    tag: String,
}

impl View for LocaleId {
    type V = Seq<char>;

    /// The canonical text of the tag.
    closed spec fn view(&self) -> Seq<char> {
        self.tag@
    }
}

impl Clone for LocaleId {
    fn clone(&self) -> (r: Self)
        ensures
            r == *self,
    {
        proof {
            use_type_invariant(self);
        }
        LocaleId { tag: self.tag.clone() }
    }
}

impl PartialEq for LocaleId {
    /// Two identifiers are equal exactly when all their subtags match.
    fn eq(&self, other: &Self) -> (r: bool) {
        self.tag == other.tag
    }
}

impl vstd::std_specs::cmp::PartialEqSpecImpl for LocaleId {
    open spec fn obeys_eq_spec() -> bool {
        true
    }

    open spec fn eq_spec(&self, other: &Self) -> bool {
        self@ == other@
    }
}

impl Eq for LocaleId {

}

impl LocaleId {
    /// Every identifier is the canonical text of some tag.
    #[verifier::type_invariant]
    pub closed spec fn validated(&self) -> bool {
        exists|source: Seq<char>| canonical_tag(source) == Some(self.tag@)
    }

    /// Reads a language tag. A tag that is not well formed is refused with
    /// `I18NError::LanguageIdentifier`.
    pub fn parse(tag: &str) -> (r: Result<LocaleId, I18NError>)
        ensures
            match r {
                Ok(id) => canonical_tag(tag@) == Some(id@),
                Err(e) => canonical_tag(tag@) is None && e is LanguageIdentifier,
            },
            r is Ok ==> tag@.len() >= 2,
    {
        match canonicalize(tag) {
            Ok(text) => Ok(LocaleId { tag: text }),
            Err(e) => Err(I18NError::LanguageIdentifier(e)),
        }
    }

    /// The canonical text of the tag.
    pub fn as_str(&self) -> (s: &str)
        ensures
            s@ == self@,
    {
        self.tag.as_str()
    }
}

} // verus!
