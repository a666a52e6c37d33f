//! The catalog of bundles, and the choice of a bundle for a client.
//!
//! A catalog holds one bundle for each of its locales, and names one of them
//! as the default. It is built once and then only read. The choice goes
//! through the client's languages, best first, and takes the first that is a
//! locale of the catalog, subtag for subtag; where none is, it takes the
//! default.

use crate::bundle::I18NBundle;
use crate::langid::LocaleId;
use crate::list::LanguageArray;
use vstd::prelude::*;

verus! {

/// The first of `preferences` that is among `available`, if one is.
pub open spec fn first_match(preferences: Seq<Seq<char>>, available: Set<Seq<char>>) -> Option<
    Seq<char>,
>
    decreases preferences.len(),
{
    if preferences.len() == 0 {
        None
    } else if available.contains(preferences.first()) {
        Some(preferences.first())
    } else {
        first_match(preferences.drop_first(), available)
    }
}

/// `first_match` gives the preference of the least index that is available,
/// and none only where no preference is.
pub proof fn lemma_first_match(preferences: Seq<Seq<char>>, available: Set<Seq<char>>)
    ensures
        match first_match(preferences, available) {
            Some(tag) => exists|i: int|
                0 <= i < preferences.len() && #[trigger] preferences[i] == tag
                    && available.contains(tag) && forall|j: int|
                    0 <= j < i ==> !available.contains(#[trigger] preferences[j]),
            None => forall|j: int|
                0 <= j < preferences.len() ==> !available.contains(#[trigger] preferences[j]),
        },
    decreases preferences.len(),
{
    if preferences.len() == 0 {
    } else if available.contains(preferences.first()) {
        assert(preferences[0] == preferences.first());
    } else {
        let rest = preferences.drop_first();
        lemma_first_match(rest, available);
        match first_match(rest, available) {
            Some(tag) => {
                let i = choose|i: int|
                    0 <= i < rest.len() && #[trigger] rest[i] == tag && available.contains(tag)
                        && forall|j: int| 0 <= j < i ==> !available.contains(#[trigger] rest[j]);
                assert(preferences[i + 1] == tag);
                assert forall|j: int| 0 <= j < i + 1 implies !available.contains(
                    #[trigger] preferences[j],
                ) by {
                    if j > 0 {
                        assert(preferences[j] == rest[j - 1]);
                    }
                }
            },
            None => {
                assert forall|j: int| 0 <= j < preferences.len() implies !available.contains(
                    #[trigger] preferences[j],
                ) by {
                    if j > 0 {
                        assert(preferences[j] == rest[j - 1]);
                    }
                }
            },
        }
    }
}

/// The bundles that can answer a request, each under its locale, and the
/// locale to fall back on.
pub struct I18NResources {
    bundles: Vec<I18NBundle>,
    fallback: usize,
}

impl I18NResources {
    /// The fallback is one of the bundles, and no two bundles have one
    /// locale.
    #[verifier::type_invariant]
    pub closed spec fn well_formed(&self) -> bool {
        &&& self.fallback < self.bundles@.len()
        &&& forall|i: int, j: int|
            0 <= i < j < self.bundles@.len() ==> self.bundles@[i].locale_tag()
                != self.bundles@[j].locale_tag()
    }

    /// Where the bundle of the locale `tag` stands.
    closed spec fn index_of(&self, tag: Seq<char>) -> int {
        choose|i: int| 0 <= i < self.bundles@.len() && self.bundles@[i].locale_tag() == tag
    }

    /// The locales of the catalog.
    pub closed spec fn locales(&self) -> Set<Seq<char>> {
        Set::new(
            |tag: Seq<char>|
                exists|i: int|
                    0 <= i < self.bundles@.len() && self.bundles@[i].locale_tag() == tag,
        )
    }

    /// The bundle of the locale `tag`, which is a locale of the catalog.
    pub closed spec fn bundle_of(&self, tag: Seq<char>) -> I18NBundle {
        self.bundles@[self.index_of(tag)]
    }

    /// The locale to fall back on.
    pub closed spec fn default_locale(&self) -> Seq<char> {
        self.bundles@[self.fallback as int].locale_tag()
    }

    /// The locale whose bundle answers a client with these preferences.
    pub open spec fn selected(&self, preferences: Seq<Seq<char>>) -> Seq<char> {
        match first_match(preferences, self.locales()) {
            Some(tag) => tag,
            None => self.default_locale(),
        }
    }

    /// What is true of every catalog: the default is one of its locales, and
    /// each bundle stands under its own locale.
    pub proof fn lemma_catalog(&self)
        requires
            self.well_formed(),
        ensures
            self.locales().contains(self.default_locale()),
            forall|tag: Seq<char>| #[trigger]
                self.locales().contains(tag) ==> self.bundle_of(tag).locale_tag() == tag,
            forall|preferences: Seq<Seq<char>>| #[trigger]
                self.locales().contains(self.selected(preferences)),
    {
        assert(self.bundles@[self.fallback as int].locale_tag() == self.default_locale());
        assert forall|preferences: Seq<Seq<char>>| #[trigger]
            self.locales().contains(self.selected(preferences)) by {
            lemma_first_match(preferences, self.locales());
        }
    }

    /// A catalog with one bundle, which is its default.
    pub fn new(default: I18NBundle) -> (catalog: I18NResources)
        ensures
            catalog.locales() == set![default.locale_tag()],
            catalog.default_locale() == default.locale_tag(),
            catalog.bundle_of(default.locale_tag()) == default,
    {
        let mut bundles: Vec<I18NBundle> = Vec::new();
        bundles.push(default);
        let catalog = I18NResources { bundles, fallback: 0 };
        proof {
            assert(catalog.bundles@[0] == default);
            assert(catalog.locales() =~= set![default.locale_tag()]);
        }
        catalog
    }

    /// Where the bundle of the locale `id` stands, if the catalog has one.
    fn position(&self, id: &LocaleId) -> (r: Option<usize>)
        ensures
            match r {
                Some(i) => i < self.bundles@.len() && self.bundles@[i as int].locale_tag() == id@
                    && self.locales().contains(id@) && self.index_of(id@) == i,
                None => !self.locales().contains(id@),
            },
    {
        proof {
            use_type_invariant(self);
        }
        let mut i: usize = 0;
        while i < self.bundles.len()
            invariant
                i <= self.bundles@.len(),
                self.well_formed(),
                forall|k: int| 0 <= k < i ==> self.bundles@[k].locale_tag() != id@,
            decreases self.bundles@.len() - i,
        {
            if *self.bundles[i].locale() == *id {
                return Some(i);
            }
            i += 1;
        }
        None
    }

    /// The catalog with `bundle` under its locale, in place of the bundle
    /// that stood there, if one did. The default locale stays.
    pub fn with_bundle(self, bundle: I18NBundle) -> (catalog: I18NResources)
        ensures
            catalog.locales() == self.locales().insert(bundle.locale_tag()),
            catalog.default_locale() == self.default_locale(),
            catalog.bundle_of(bundle.locale_tag()) == bundle,
            forall|tag: Seq<char>|
                self.locales().contains(tag) && tag != bundle.locale_tag()
                    ==> #[trigger] catalog.bundle_of(tag) == self.bundle_of(tag),
    {
        proof {
            use_type_invariant(&self);
        }
        let found = self.position(bundle.locale());
        let ghost before = self;
        let I18NResources { mut bundles, fallback } = self;
        match found {
            Some(i) => {
                bundles.set(i, bundle);
            },
            None => {
                bundles.push(bundle);
            },
        }
        let catalog = I18NResources { bundles, fallback };
        proof {
            let at: int = match found {
                Some(i) => i as int,
                None => before.bundles@.len() as int,
            };
            assert(catalog.bundles@[at] == bundle);
            assert forall|k: int| 0 <= k < catalog.bundles@.len() && k != at implies #[trigger]
                catalog.bundles@[k] == before.bundles@[k] by {}
            assert(catalog.locales() =~= before.locales().insert(bundle.locale_tag())) by {
                assert forall|tag: Seq<char>| catalog.locales().contains(tag) implies before.locales().insert(
                    bundle.locale_tag(),
                ).contains(tag) by {
                    let k = choose|k: int|
                        0 <= k < catalog.bundles@.len() && catalog.bundles@[k].locale_tag() == tag;
                    if k != at {
                        assert(before.bundles@[k].locale_tag() == tag);
                    }
                }
                assert forall|tag: Seq<char>|
                    before.locales().insert(bundle.locale_tag()).contains(
                        tag,
                    ) implies catalog.locales().contains(tag) by {
                    if tag == bundle.locale_tag() {
                        assert(catalog.bundles@[at].locale_tag() == tag);
                    } else {
                        let k = choose|k: int|
                            0 <= k < before.bundles@.len() && before.bundles@[k].locale_tag()
                                == tag;
                        assert(catalog.bundles@[k].locale_tag() == tag);
                    }
                }
            }
            assert forall|tag: Seq<char>|
                before.locales().contains(tag) && tag != bundle.locale_tag() implies #[trigger]
                catalog.bundle_of(tag) == before.bundle_of(tag) by {
                let k = before.index_of(tag);
                assert(catalog.bundles@[k].locale_tag() == tag);
                assert(catalog.index_of(tag) == k);
            }
            assert(catalog.index_of(bundle.locale_tag()) == at);
        }
        catalog
    }

    /// Chooses the bundle for a client who prefers `preferences`, best
    /// first: the bundle of the first preference that is a locale of the
    /// catalog, else the bundle of the default locale. It always gives a
    /// bundle.
    pub fn negotiate_languages(&self, preferences: &LanguageArray) -> (bundle: I18NBundle)
        ensures
            bundle == self.bundle_of(self.selected(preferences@)),
            bundle.locale_tag() == self.selected(preferences@),
            self.locales().contains(self.selected(preferences@)),
    {
        proof {
            use_type_invariant(self);
            self.lemma_catalog();
            assert(preferences@.skip(0) == preferences@);
        }
        let n: usize = preferences.len();
        let mut i: usize = 0;
        while i < n
            invariant
                i <= n,
                n == preferences@.len(),
                first_match(preferences@, self.locales()) == first_match(
                    preferences@.skip(i as int),
                    self.locales(),
                ),
            decreases n - i,
        {
            match self.position(preferences.get(i)) {
                Some(at) => {
                    return self.bundles[at].clone();
                },
                None => {
                    assert(preferences@.skip(i as int).drop_first() == preferences@.skip(i + 1));
                },
            }
            i += 1;
        }
        self.bundles[self.fallback].clone()
    }
}

} // verus!
