//! Message bundles: the messages of one locale, and how a message
//! identifier becomes text.
//!
//! The templates are kept and evaluated by the `fluent` template engine.
//! This module decides what each outcome of the engine means to the caller.

use crate::error::I18NError;
use crate::langid::{canonical_tag, LocaleId};
use crate::template::{byte_offset, guarded, scan, Refusal};
use crate::text::to_chars;
use fluent::{FluentArgs, FluentError, FluentResource};
use fluent_syntax::parser::{ErrorKind, ParserError};
use intl_memoizer::concurrent::IntlLangMemoizer;
use std::sync::Arc;
use unic_langid::{LanguageIdentifier, LanguageIdentifierError};
use vstd::prelude::*;

verus! {

/// A language identifier as the template engine takes it.
#[verifier::external_type_specification]
#[verifier::external_body]
pub struct ExLanguageIdentifier(LanguageIdentifier);

/// A parsed template source.
#[verifier::external_type_specification]
#[verifier::external_body]
pub struct ExFluentResource(FluentResource);

/// The arguments that a template is filled with.
#[verifier::external_type_specification]
#[verifier::external_body]
pub struct ExFluentArgs<'a>(FluentArgs<'a>);

/// The template engine's bundle: the messages of one locale.
#[verifier::external_type_specification]
#[verifier::external_body]
#[verifier::reject_recursive_types(R)]
#[verifier::reject_recursive_types(M)]
pub struct ExFluentBundle<R, M>(fluent::bundle::FluentBundle<R, M>);

/// The engine's cache of formatters, in the form that threads can share.
#[verifier::external_type_specification]
#[verifier::external_body]
pub struct ExIntlLangMemoizer(IntlLangMemoizer);

/// A bundle that threads can share.
pub type Messages = fluent::bundle::FluentBundle<FluentResource, IntlLangMemoizer>;

/// Arguments that own their names and values.
pub type OwnedArgs = FluentArgs<'static>;

/// The value of an argument.
pub enum Value {
    /// A text.
    Text(Seq<char>),
    /// A whole number.
    Number(int),
}

/// What the engine gives for a message: the text, and its reports.
pub type Output = (String, Vec<FluentError>);

/// An entry of a template source: whether it is a message (else it is a
/// term), and its name.
pub type Defined = (bool, Seq<char>);

/// The identifiers of the messages that a bundle holds.
pub uninterp spec fn message_ids(messages: Messages) -> Set<Seq<char>>;

/// The names that a bundle holds an entry under, be it a message, a term or
/// a function.
pub uninterp spec fn held_names(messages: Messages) -> Set<Seq<char>>;

/// Whether a bundle puts isolation marks around the arguments that it fills
/// in: the switch that it was last set to.
pub uninterp spec fn isolates(messages: Messages) -> bool;

/// Whether every pattern of the bundle can be rendered: none of its
/// placeables holds nothing but another placeable, none of its selectors
/// is a literal, none of its numbers has twenty or more digits behind the
/// point, and none of its definitions opens more than two hundred
/// placeables and calls.
pub uninterp spec fn renderable(messages: Messages) -> bool;

/// Whether the message `id` of a bundle has a value.
pub uninterp spec fn valued(messages: Messages, id: Seq<char>) -> bool;

/// What the engine renders the value of the message `id` to with these
/// arguments: the text, and the number of errors that it reports.
pub uninterp spec fn rendering(
    messages: Messages,
    id: Seq<char>,
    args: Option<Map<Seq<char>, Value>>,
) -> (Seq<char>, nat);

/// The messages and terms that a parsed source holds, in its order.
pub uninterp spec fn resource_entries(resource: FluentResource) -> Seq<Defined>;

/// Whether no placeable of a parsed source holds nothing but another
/// placeable, no selector of it is a literal, no number of it has twenty or
/// more digits behind the point, and no definition of it opens more than two
/// hundred placeables and calls.
pub uninterp spec fn resource_plain(resource: FluentResource) -> bool;

/// The messages and terms that the template text `source` defines, in its
/// order, where `source` is valid template text.
pub uninterp spec fn template(source: Seq<char>) -> Option<Seq<Defined>>;

/// The arguments that are set, each name with its value.
pub uninterp spec fn arguments(args: OwnedArgs) -> Map<Seq<char>, Value>;

/// The names of the entries, in order.
pub open spec fn names(entries: Seq<Defined>) -> Seq<Seq<char>> {
    entries.map_values(|e: Defined| e.1)
}

/// The names of the messages among the entries.
pub open spec fn messages_of(entries: Seq<Defined>) -> Set<Seq<char>> {
    Set::new(|name: Seq<char>| entries.contains((true, name)))
}

/// Whether a bundle that holds `held` takes all the entries: no name among
/// them is held already, and none occurs twice.
pub open spec fn addable(held: Set<Seq<char>>, entries: Seq<Defined>) -> bool {
    &&& names(entries).no_duplicates()
    &&& forall|i: int| 0 <= i < entries.len() ==> !held.contains(#[trigger] names(entries)[i])
}

/// Whether the valid template text `source` gives two entries one name.
pub open spec fn conflicting(source: Seq<char>) -> bool {
    template(source) matches Some(entries) && !names(entries).no_duplicates()
}

/// The identifiers of the messages that the valid template text `source`
/// defines.
pub open spec fn defined(source: Seq<char>) -> Set<Seq<char>> {
    match template(source) {
        Some(entries) => messages_of(entries),
        None => Set::empty(),
    }
}

/// The arguments of a call, if it has any.
pub open spec fn given(args: Option<&I18NArgs>) -> Option<Map<Seq<char>, Value>> {
    match args {
        Some(a) => Some(a@),
        None => None,
    }
}

/// Calls `LanguageIdentifier::from_str` on `tag`. It parses the bytes of the
/// tag with `LanguageIdentifier::from_bytes`, as `unic_langid::canonicalize`
/// does before it writes the identifier out: it takes the tags that have a
/// canonical text, and no others.
#[verifier::external_body]
fn language_identifier(tag: &str) -> (r: Result<LanguageIdentifier, LanguageIdentifierError>)
    ensures
        r is Ok <==> canonical_tag(tag@) is Some,
{
    tag.parse()
}

/// Calls `FluentBundle::new_concurrent` with one locale: a bundle without
/// entries, which isolates arguments.
#[verifier::external_body]
fn messages_new(locale: LanguageIdentifier) -> (messages: Messages)
    ensures
        message_ids(messages) == Set::<Seq<char>>::empty(),
        held_names(messages) == Set::<Seq<char>>::empty(),
        isolates(messages),
        renderable(messages),
{
    fluent::bundle::FluentBundle::new_concurrent(vec![locale])
}

/// Calls `FluentBundle::set_use_isolating`, which sets the switch and leaves
/// the entries as they are.
#[verifier::external_body]
fn messages_set_isolating(messages: &mut Messages, value: bool)
    ensures
        message_ids(*final(messages)) == message_ids(*old(messages)),
        held_names(*final(messages)) == held_names(*old(messages)),
        renderable(*final(messages)) == renderable(*old(messages)),
        isolates(*final(messages)) == value,
{
    messages.set_use_isolating(value)
}

/// Calls `FluentResource::try_new`, which parses a template source. It
/// succeeds where the parser reports no error: the entries of the resource
/// are what `template` names. Else it hands back what it could read together
/// with the errors, at least one: only the errors are kept here.
///
/// The parser fails on an escape with too few digits before a character
/// outside ASCII. It goes one call deeper with each placeable and each call
/// that it opens, and it is back at the start where a line begins with `#`
/// or with a name and `=`: there a pattern and a string have ended, and an
/// expression cannot go on. So it needs a source that is `guarded`. Such a
/// source gives a resource that is plain:
///
/// - The parser makes a placeable that holds nothing but a placeable only
///   of a `{` that follows a `{` with blanks between them at most.
/// - It makes a select expression over a literal only of a `{`, the literal
///   and a `->`, with blanks between them at most; a string stands between
///   two `"` on one line, and a number is written in digits, points and
///   minus signs.
/// - It makes a number of the digits that are written, those behind the
///   point among them.
#[verifier::external_body]
fn resource_new(source: String) -> (r: Result<FluentResource, Vec<ParserError>>)
    requires
        guarded(source@),
    ensures
        match r {
            Ok(resource) => template(source@) == Some(resource_entries(resource))
                && resource_plain(resource),
            Err(errors) => template(source@) is None && errors@.len() > 0,
        },
{
    FluentResource::try_new(source).map_err(|(_, errors)| errors)
}

/// Calls `FluentBundle::add_resource`, which goes through the messages and
/// terms of a resource: it adds each whose name the bundle does not hold
/// yet, and reports each of the others. It succeeds where it has nothing to
/// report: every entry of the resource is then in the bundle. No message
/// leaves the bundle, none comes from elsewhere, and the switch stays as it
/// is.
#[verifier::external_body]
fn messages_add(messages: &mut Messages, resource: FluentResource) -> (r: Result<
    (),
    Vec<FluentError>,
>)
    ensures
        r is Ok <==> addable(held_names(*old(messages)), resource_entries(resource)),
        r matches Err(errors) ==> errors@.len() > 0,
        message_ids(*old(messages)).subset_of(message_ids(*final(messages))),
        message_ids(*final(messages)).subset_of(
            message_ids(*old(messages)).union(messages_of(resource_entries(resource))),
        ),
        r is Ok ==> message_ids(*final(messages)) == message_ids(*old(messages)).union(
            messages_of(resource_entries(resource)),
        ),
        held_names(*final(messages)) == held_names(*old(messages)).union(
            names(resource_entries(resource)).to_set(),
        ),
        isolates(*final(messages)) == isolates(*old(messages)),
        renderable(*old(messages)) && resource_plain(resource) ==> renderable(*final(messages)),
{
    messages.add_resource(resource)
}

/// Calls `FluentBundle::has_message`: whether the bundle holds a message of
/// this identifier.
#[verifier::external_body]
fn messages_has(messages: &Messages, id: &str) -> (b: bool)
    ensures
        b == message_ids(*messages).contains(id@),
{
    messages.has_message(id)
}

/// Calls `FluentBundle::get_message`, `FluentMessage::value` on the message
/// and `FluentBundle::format_pattern` on its value: nothing where the bundle
/// holds no such message or the message has no value, else the text that
/// the engine renders and the errors that it reports.
///
/// The engine gives up past a hundred placeables and then writes out the
/// expressions on its way, which it can do for references, variables and
/// function calls alone. Where it matches a number against a plural
/// category, it scales the number by its digits behind the point, which
/// must be fewer than twenty. It goes through nested expressions by
/// recursion. So it needs a bundle that is `renderable`.
#[verifier::external_body]
fn message_render(messages: &Messages, id: &str, args: Option<&I18NArgs>) -> (r: Option<Output>)
    requires
        renderable(*messages),
    ensures
        r is Some <==> (message_ids(*messages).contains(id@) && valued(*messages, id@)),
        r matches Some(out) ==> out.0@ == rendering(*messages, id@, given(args)).0,
        r matches Some(out) ==> out.1@.len() == rendering(*messages, id@, given(args)).1,
{
    let pattern = messages.get_message(id)?.value()?;
    let mut errors = Vec::new();
    let text = messages.format_pattern(pattern, args.map(|a| &a.args), &mut errors).into_owned();
    Some((text, errors))
}

/// Makes a `ParserError` of a refusal: its place in bytes, and of the kinds
/// that the parser has the one that fits. `text` is what an escape that is
/// refused starts with.
#[verifier::external_body]
fn refusal_error(start: usize, end: usize, refusal: Refusal, text: String) -> (error: ParserError) {
    let kind = match refusal {
        Refusal::NestedPlaceable => ErrorKind::ExpectedInlineExpression,
        Refusal::LiteralSelector => ErrorKind::ExpectedSimpleExpressionAsSelector,
        Refusal::BrokenEscape => ErrorKind::InvalidUnicodeEscapeSequence(text),
        Refusal::LongFraction => ErrorKind::ExpectedLiteral,
        Refusal::DeepNesting => ErrorKind::ExpectedToken('}'),
    };
    ParserError { pos: start..end, slice: None, kind }
}

/// Calls `Arc::clone`: another handle to the same value.
#[verifier::external_body]
fn share(messages: &Arc<Messages>) -> (r: Arc<Messages>)
    ensures
        r == *messages,
{
    Arc::clone(messages)
}

/// Calls `FluentArgs::new`: no argument is set.
#[verifier::external_body]
fn args_new() -> (args: OwnedArgs)
    ensures
        arguments(args) == (Map::<Seq<char>, Value>::empty()),
{
    FluentArgs::new()
}

/// Calls `FluentArgs::set` with a text, which sets the argument `name` to
/// it, in place of the value that it had, if it had one.
#[verifier::external_body]
fn args_set(args: &mut OwnedArgs, name: &str, value: &str)
    ensures
        arguments(*final(args)) == arguments(*old(args)).insert(name@, Value::Text(value@)),
{
    args.set(name.to_owned(), value.to_owned())
}

/// Calls `FluentArgs::set` with a number, which sets the argument `name` to
/// it, in place of the value that it had, if it had one.
#[verifier::external_body]
fn args_set_number(args: &mut OwnedArgs, name: &str, value: i32)
    ensures
        arguments(*final(args)) == arguments(*old(args)).insert(name@, Value::Number(value as int)),
{
    args.set(name.to_owned(), value)
}

/// The arguments of a message: values by name.
pub struct I18NArgs {
    args: OwnedArgs,
}

impl View for I18NArgs {
    type V = Map<Seq<char>, Value>;

    closed spec fn view(&self) -> Map<Seq<char>, Value> {
        arguments(self.args)
    }
}

impl I18NArgs {
    /// No arguments.
    pub fn new() -> (args: I18NArgs)
        ensures
            args@ == (Map::<Seq<char>, Value>::empty()),
    {
        I18NArgs { args: args_new() }
    }

    /// Sets the argument `name` to the text `value`. A name has one value:
    /// a second one takes the place of the first.
    pub fn set(&mut self, name: &str, value: &str)
        ensures
            final(self)@ == old(self)@.insert(name@, Value::Text(value@)),
    {
        args_set(&mut self.args, name, value)
    }

    /// Sets the argument `name` to the number `value`, which a template can
    /// select a variant by. A name has one value: a second one takes the
    /// place of the first.
    pub fn set_number(&mut self, name: &str, value: i32)
        ensures
            final(self)@ == old(self)@.insert(name@, Value::Number(value as int)),
    {
        args_set_number(&mut self.args, name, value)
    }
}

/// What the template engine made of a message identifier.
pub enum Evaluation {
    /// The bundle holds no message of this identifier.
    Missing,
    /// The message has no value.
    Empty,
    /// The message's value was rendered to `text`, and the engine reported
    /// `errors` along the way.
    Rendered { text: String, errors: Vec<FluentError> },
}

/// Whether `r` is what a caller gets who asked for the message `id`, where
/// the engine made `evaluation` of it.
pub open spec fn resolves_to(
    id: Seq<char>,
    evaluation: Evaluation,
    r: Result<String, I18NError>,
) -> bool {
    match evaluation {
        Evaluation::Missing => r matches Err(I18NError::FluentMessageNotFound { id: asked })
            && asked@ == id,
        Evaluation::Empty => r matches Err(I18NError::FluentNoValue),
        Evaluation::Rendered { text, errors } => if errors@.len() > 0 {
            r == Err::<String, I18NError>(I18NError::Fluent(errors))
        } else {
            r == Ok::<String, I18NError>(text)
        },
    }
}

/// Decides what the caller gets: the rendered text as the engine gave it,
/// where the engine reported nothing; else the failure.
pub fn resolve(id: &str, evaluation: Evaluation) -> (r: Result<String, I18NError>)
    ensures
        resolves_to(id@, evaluation, r),
{
    match evaluation {
        Evaluation::Missing => Err(I18NError::FluentMessageNotFound { id: String::from_str(id) }),
        Evaluation::Empty => Err(I18NError::FluentNoValue),
        Evaluation::Rendered { text, errors } => {
            if errors.len() > 0 {
                Err(I18NError::Fluent(errors))
            } else {
                Ok(text)
            }
        },
    }
}

/// What the template engine made of a template source.
pub enum Assembly {
    /// The engine does not take the locale.
    Refused(LanguageIdentifierError),
    /// The source is no valid template text, or holds what is not taken:
    /// the reports, at least one.
    Unreadable(Vec<ParserError>),
    /// The source gives two entries one name: the engine's reports.
    Conflicting(Vec<FluentError>),
    /// The engine built a bundle from the source.
    Built(Messages),
}

/// Whether `r` is what comes of a source for the bundle of `locale`, where
/// the engine made `assembly` of it.
pub open spec fn assembles_to(
    locale: Seq<char>,
    assembly: Assembly,
    r: Result<I18NBundle, I18NError>,
) -> bool {
    match assembly {
        Assembly::Refused(e) => r == Err::<I18NBundle, I18NError>(I18NError::LanguageIdentifier(e)),
        Assembly::Unreadable(errors) => r == Err::<I18NBundle, I18NError>(
            I18NError::FluentParser(errors),
        ),
        Assembly::Conflicting(errors) => r == Err::<I18NBundle, I18NError>(
            I18NError::Fluent(errors),
        ),
        Assembly::Built(messages) => r matches Ok(bundle) && bundle.locale_tag() == locale
            && bundle.messages() == messages,
    }
}

/// The messages of one locale. A bundle is a handle: a clone shares the
/// messages.
pub struct I18NBundle {
    locale: LocaleId,
    messages: Arc<Messages>,
}

impl Clone for I18NBundle {
    fn clone(&self) -> (r: Self)
        ensures
            r == *self,
    {
        proof {
            use_type_invariant(self);
        }
        I18NBundle { locale: self.locale.clone(), messages: share(&self.messages) }
    }
}

impl I18NBundle {
    /// Every message of a bundle can be rendered.
    #[verifier::type_invariant]
    pub closed spec fn sound(&self) -> bool {
        renderable(*self.messages)
    }

    /// The canonical tag of the bundle's locale.
    pub closed spec fn locale_tag(&self) -> Seq<char> {
        self.locale@
    }

    /// The engine's bundle that holds the messages.
    pub closed spec fn messages(&self) -> Messages {
        *self.messages
    }

    /// The identifiers of the bundle's messages.
    pub open spec fn ids(&self) -> Set<Seq<char>> {
        message_ids(self.messages())
    }

    /// Whether the bundle puts isolation marks around the arguments that it
    /// fills in.
    pub open spec fn isolating(&self) -> bool {
        isolates(self.messages())
    }

    /// Hands a template source to the engine for the bundle of `locale`.
    /// `use_isolating` says whether the engine puts bidirectional isolation
    /// marks around the arguments that it fills in.
    ///
    /// The engine refuses a locale whose tag it cannot read. A source that is
    /// not `guarded` is refused before the parser sees it, and after that a
    /// source that is no valid template text. Else the engine builds a bundle
    /// that holds the messages of the source and has the switch as asked,
    /// unless the source gives two entries one name.
    fn assemble(locale: &LocaleId, source: String, use_isolating: bool) -> (assembly: Assembly)
        ensures
            assembly is Refused <==> canonical_tag(locale@) is None,
            assembly is Unreadable <==> canonical_tag(locale@) is Some && (template(source@) is None
                || !guarded(source@)),
            assembly is Conflicting <==> canonical_tag(locale@) is Some && template(source@) is Some
                && guarded(source@) && conflicting(source@),
            assembly matches Assembly::Unreadable(errors) ==> errors@.len() > 0,
            assembly matches Assembly::Conflicting(errors) ==> errors@.len() > 0,
            assembly matches Assembly::Built(messages) ==> message_ids(messages) == defined(source@)
                && isolates(messages) == use_isolating && renderable(messages),
    {
        let identifier = match language_identifier(locale.as_str()) {
            Ok(identifier) => identifier,
            Err(e) => {
                return Assembly::Refused(e);
            },
        };
        let chars = to_chars(source.as_str());
        match scan(&chars) {
            Some((at, refusal)) => {
                let start = byte_offset(&chars, at);
                let end = byte_offset(&chars, at + 1);
                let text = String::from_str(source.as_str().substring_char(at, at + 1));
                let mut errors: Vec<ParserError> = Vec::new();
                errors.push(refusal_error(start, end, refusal, text));
                return Assembly::Unreadable(errors);
            },
            None => {},
        }
        let resource = match resource_new(source) {
            Ok(resource) => resource,
            Err(errors) => {
                return Assembly::Unreadable(errors);
            },
        };
        let mut messages = messages_new(identifier);
        messages_set_isolating(&mut messages, use_isolating);
        let ghost entries = resource_entries(resource);
        match messages_add(&mut messages, resource) {
            Ok(()) => {
                assert(message_ids(messages) == messages_of(entries)) by {
                    assert(Set::<Seq<char>>::empty().union(messages_of(entries)) =~= messages_of(
                        entries,
                    ));
                }
                Assembly::Built(messages)
            },
            Err(errors) => Assembly::Conflicting(errors),
        }
    }

    /// Decides what comes of a source: the bundle of `locale` with the
    /// messages that the engine built, or the failure.
    pub fn finish(locale: &LocaleId, assembly: Assembly) -> (r: Result<I18NBundle, I18NError>)
        requires
            assembly matches Assembly::Built(messages) ==> renderable(messages),
        ensures
            assembles_to(locale@, assembly, r),
    {
        match assembly {
            Assembly::Refused(e) => Err(I18NError::LanguageIdentifier(e)),
            Assembly::Unreadable(errors) => Err(I18NError::FluentParser(errors)),
            Assembly::Conflicting(errors) => Err(I18NError::Fluent(errors)),
            Assembly::Built(messages) => Ok(
                I18NBundle { locale: locale.clone(), messages: Arc::new(messages) },
            ),
        }
    }

    /// Builds the bundle of `locale` from template source text.
    /// `use_isolating` says whether the engine puts bidirectional isolation
    /// marks around the arguments that it fills in.
    ///
    /// A bundle is built exactly where the engine takes the locale, the
    /// source is valid template text and `guarded`, and no two of its
    /// entries have one name. A locale that the engine does not take is
    /// refused with `LanguageIdentifier`; after that a source that is no
    /// valid template text, or not `guarded`, with `FluentParser`; after
    /// that one that gives two entries one name with `Fluent`.
    pub fn from_source(locale: &LocaleId, source: String, use_isolating: bool) -> (r: Result<
        I18NBundle,
        I18NError,
    >)
        ensures
            r is Ok <==> canonical_tag(locale@) is Some && template(source@) is Some && guarded(
                source@,
            ) && !conflicting(source@),
            r matches Ok(bundle) ==> bundle.locale_tag() == locale@ && bundle.ids() == defined(
                source@,
            ) && bundle.isolating() == use_isolating,
            (r matches Err(e) && e is LanguageIdentifier) <==> canonical_tag(locale@) is None,
            (r matches Err(e) && e is FluentParser) <==> canonical_tag(locale@) is Some && (template(
                source@,
            ) is None || !guarded(source@)),
            (r matches Err(e) && e is Fluent) <==> canonical_tag(locale@) is Some && template(
                source@,
            ) is Some && guarded(source@) && conflicting(source@),
            r matches Err(I18NError::FluentParser(errors)) ==> errors@.len() > 0,
            r matches Err(I18NError::Fluent(errors)) ==> errors@.len() > 0,
    {
        let assembly = I18NBundle::assemble(locale, source, use_isolating);
        I18NBundle::finish(locale, assembly)
    }

    /// The locale of the bundle.
    pub fn locale(&self) -> (id: &LocaleId)
        ensures
            id@ == self.locale_tag(),
    {
        &self.locale
    }

    /// Whether the bundle holds a message of this identifier.
    pub fn has_message(&self, id: &str) -> (b: bool)
        ensures
            b == self.ids().contains(id@),
    {
        messages_has(&self.messages, id)
    }

    /// Asks the engine for the message `id`, rendered with `args`.
    pub fn evaluate(&self, id: &str, args: Option<&I18NArgs>) -> (evaluation: Evaluation)
        ensures
            evaluation is Missing <==> !self.ids().contains(id@),
            evaluation is Empty <==> self.ids().contains(id@) && !valued(self.messages(), id@),
            evaluation matches Evaluation::Rendered { text, errors } ==> text@ == rendering(
                self.messages(),
                id@,
                given(args),
            ).0 && errors@.len() == rendering(self.messages(), id@, given(args)).1,
    {
        proof {
            use_type_invariant(self);
        }
        if !messages_has(&self.messages, id) {
            return Evaluation::Missing;
        }
        match message_render(&self.messages, id, args) {
            None => Evaluation::Empty,
            Some((text, errors)) => Evaluation::Rendered { text, errors },
        }
    }

    /// Gets the text of the message `id`, rendered with `args`.
    ///
    /// It fails with `FluentMessageNotFound` exactly where the bundle holds
    /// no such message; with `FluentNoValue` exactly where the message has
    /// no value; with `Fluent` exactly where the engine reports errors. Else
    /// the result is the engine's text, unchanged.
    pub fn text_with_args(&self, id: &str, args: &I18NArgs) -> (r: Result<String, I18NError>)
        ensures
            !self.ids().contains(id@) <==> (r matches Err(
                I18NError::FluentMessageNotFound { id: asked },
            ) && asked@ == id@),
            (self.ids().contains(id@) && !valued(self.messages(), id@)) <==> r matches Err(
                I18NError::FluentNoValue,
            ),
            r is Ok <==> self.ids().contains(id@) && valued(self.messages(), id@) && rendering(
                self.messages(),
                id@,
                Some(args@),
            ).1 == 0,
            r matches Ok(text) ==> text@ == rendering(self.messages(), id@, Some(args@)).0,
            r matches Err(I18NError::Fluent(_)) <==> self.ids().contains(id@) && valued(
                self.messages(),
                id@,
            ) && rendering(self.messages(), id@, Some(args@)).1 > 0,
            r matches Err(I18NError::Fluent(errors)) ==> errors@.len() == rendering(
                self.messages(),
                id@,
                Some(args@),
            ).1,
    {
        let evaluation = self.evaluate(id, Some(args));
        resolve(id, evaluation)
    }

    /// Gets the text of the message `id`, which takes no arguments.
    ///
    /// It fails as `text_with_args` does.
    pub fn text(&self, id: &str) -> (r: Result<String, I18NError>)
        ensures
            !self.ids().contains(id@) <==> (r matches Err(
                I18NError::FluentMessageNotFound { id: asked },
            ) && asked@ == id@),
            (self.ids().contains(id@) && !valued(self.messages(), id@)) <==> r matches Err(
                I18NError::FluentNoValue,
            ),
            r is Ok <==> self.ids().contains(id@) && valued(self.messages(), id@) && rendering(
                self.messages(),
                id@,
                None,
            ).1 == 0,
            r matches Ok(text) ==> text@ == rendering(self.messages(), id@, None).0,
            r matches Err(I18NError::Fluent(_)) <==> self.ids().contains(id@) && valued(
                self.messages(),
                id@,
            ) && rendering(self.messages(), id@, None).1 > 0,
            r matches Err(I18NError::Fluent(errors)) ==> errors@.len() == rendering(
                self.messages(),
                id@,
                None,
            ).1,
    {
        let evaluation = self.evaluate(id, None);
        resolve(id, evaluation)
    }
}

} // verus!
