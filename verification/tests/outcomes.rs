use actix_i18n::bundle::{resolve, Assembly, Evaluation};
use actix_i18n::{I18NBundle, I18NError, LocaleId};
use fluent::{FluentError, FluentResource};
use fluent_syntax::parser::{ErrorKind, ParserError};
use unic_langid::LanguageIdentifierError;

fn parser_error() -> ParserError {
    ParserError {
        pos: 0..1,
        slice: None,
        kind: ErrorKind::ExpectedToken('='),
    }
}

#[test]
fn missing_message_resolves_to_not_found() {
    match resolve("greeting", Evaluation::Missing) {
        Err(I18NError::FluentMessageNotFound { id }) => assert_eq!(id, "greeting"),
        other => panic!("unexpected: {:?}", other),
    }
}

#[test]
fn message_without_value_resolves_to_no_value() {
    assert!(matches!(
        resolve("greeting", Evaluation::Empty),
        Err(I18NError::FluentNoValue)
    ));
}

#[test]
fn rendered_text_is_handed_on_unchanged() {
    let evaluation = Evaluation::Rendered {
        text: "  Hello \u{2068}Bob\u{2069}  ".to_string(),
        errors: Vec::new(),
    };
    assert_eq!(
        resolve("greeting", evaluation).unwrap(),
        "  Hello \u{2068}Bob\u{2069}  "
    );
    let evaluation = Evaluation::Rendered {
        text: String::new(),
        errors: Vec::new(),
    };
    assert_eq!(resolve("greeting", evaluation).unwrap(), "");
}

#[test]
fn reported_errors_win_over_the_text() {
    let reported = FluentError::ParserError(parser_error());
    let evaluation = Evaluation::Rendered {
        text: "Hello {$name}".to_string(),
        errors: vec![reported.clone()],
    };
    match resolve("greeting", evaluation) {
        Err(I18NError::Fluent(errors)) => assert_eq!(errors, vec![reported]),
        other => panic!("unexpected: {:?}", other),
    }
}

#[test]
fn refused_locale_ends_in_language_identifier() {
    let locale = LocaleId::parse("en").unwrap();
    match I18NBundle::finish(&locale, Assembly::Refused(LanguageIdentifierError::Unknown)) {
        Err(I18NError::LanguageIdentifier(e)) => assert_eq!(e, LanguageIdentifierError::Unknown),
        Err(other) => panic!("unexpected: {:?}", other),
        Ok(_) => panic!("unexpected success"),
    }
}

#[test]
fn unreadable_source_ends_in_fluent_parser() {
    let locale = LocaleId::parse("en").unwrap();
    match I18NBundle::finish(&locale, Assembly::Unreadable(vec![parser_error()])) {
        Err(I18NError::FluentParser(errors)) => assert_eq!(errors, vec![parser_error()]),
        Err(other) => panic!("unexpected: {:?}", other),
        Ok(_) => panic!("unexpected success"),
    }
}

#[test]
fn conflicting_source_ends_in_fluent() {
    let locale = LocaleId::parse("en").unwrap();
    let reported = FluentError::ParserError(parser_error());
    match I18NBundle::finish(&locale, Assembly::Conflicting(vec![reported.clone()])) {
        Err(I18NError::Fluent(errors)) => assert_eq!(errors, vec![reported]),
        Err(other) => panic!("unexpected: {:?}", other),
        Ok(_) => panic!("unexpected success"),
    }
}

#[test]
fn built_messages_become_the_bundle() {
    let locale = LocaleId::parse("pl").unwrap();
    let mut messages = fluent::bundle::FluentBundle::new_concurrent(vec!["pl".parse().unwrap()]);
    messages
        .add_resource(FluentResource::try_new("hello = Cześć\n".to_string()).unwrap())
        .unwrap();
    let bundle = I18NBundle::finish(&locale, Assembly::Built(messages)).unwrap();
    assert_eq!(bundle.locale().as_str(), "pl");
    assert!(bundle.has_message("hello"));
    assert_eq!(bundle.text("hello").unwrap(), "Cześć");
}

#[test]
fn io_failure_is_carried() {
    let error = I18NError::Io(std::io::Error::new(std::io::ErrorKind::NotFound, "gone"));
    match error {
        I18NError::Io(inner) => assert_eq!(inner.kind(), std::io::ErrorKind::NotFound),
        other => panic!("unexpected: {:?}", other),
    }
}
