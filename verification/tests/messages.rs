use actix_i18n::{I18NArgs, I18NBundle, I18NError, I18NResources, LanguageArray, Locale, LocaleId};

const ENGLISH: &str = "hello-world = Hello world!\nwelcome = Welcome { $name }!\nonly-attribute =\n    .title = A title\n";
const FRENCH: &str = "hello-world = Bonjour le monde!\nwelcome = Bienvenue { $name }!\n";
const GERMAN: &str = "hello-world = Hallo Welt!\n";

fn bundle(tag: &str, source: &str) -> I18NBundle {
    I18NBundle::from_source(&LocaleId::parse(tag).unwrap(), source.to_string(), false).unwrap()
}

fn catalog() -> I18NResources {
    I18NResources::new(bundle("en", ENGLISH)).with_bundle(bundle("fr", FRENCH))
}

fn list(tags: &[&str]) -> LanguageArray {
    let mut list = LanguageArray::new();
    for tag in tags {
        let at = list.len();
        list.insert(at, LocaleId::parse(tag).unwrap());
    }
    list
}

#[test]
fn negotiation_picks_first_preference_in_catalog() {
    let chosen = catalog().negotiate_languages(&list(&["de", "fr", "en"]));
    assert_eq!(chosen.locale().as_str(), "fr");
    assert_eq!(chosen.text("hello-world").unwrap(), "Bonjour le monde!");
}

#[test]
fn negotiation_ignores_lower_ranked_matches() {
    let chosen = catalog().negotiate_languages(&list(&["en", "fr"]));
    assert_eq!(chosen.locale().as_str(), "en");
    let chosen = catalog().negotiate_languages(&list(&["fr", "en"]));
    assert_eq!(chosen.locale().as_str(), "fr");
}

#[test]
fn negotiation_falls_back_to_default() {
    let chosen = catalog().negotiate_languages(&list(&["de", "it"]));
    assert_eq!(chosen.locale().as_str(), "en");
    let chosen = catalog().negotiate_languages(&LanguageArray::new());
    assert_eq!(chosen.locale().as_str(), "en");
}

#[test]
fn negotiation_matches_whole_tags_only() {
    let resources = I18NResources::new(bundle("fr", FRENCH)).with_bundle(bundle("en", ENGLISH));
    let chosen = resources.negotiate_languages(&list(&["en-GB"]));
    assert_eq!(chosen.locale().as_str(), "fr");
    let chosen = resources.negotiate_languages(&list(&["en-GB", "en"]));
    assert_eq!(chosen.locale().as_str(), "en");
    let resources = I18NResources::new(bundle("fr", FRENCH)).with_bundle(bundle("en-GB", ENGLISH));
    let chosen = resources.negotiate_languages(&list(&["en"]));
    assert_eq!(chosen.locale().as_str(), "fr");
}

#[test]
fn catalog_with_one_bundle_always_gives_it() {
    let resources = I18NResources::new(bundle("de", GERMAN));
    assert_eq!(
        resources.negotiate_languages(&list(&["fr", "en"])).locale().as_str(),
        "de"
    );
    assert_eq!(
        resources.negotiate_languages(&list(&["de"])).locale().as_str(),
        "de"
    );
}

#[test]
fn later_bundle_takes_the_place_of_an_earlier_one() {
    let resources = catalog().with_bundle(bundle("fr", "hello-world = Salut!\n"));
    let chosen = resources.negotiate_languages(&list(&["fr"]));
    assert_eq!(chosen.text("hello-world").unwrap(), "Salut!");
    let resources = catalog().with_bundle(bundle("en", "hello-world = Hi!\n"));
    let chosen = resources.negotiate_languages(&list(&["it"]));
    assert_eq!(chosen.locale().as_str(), "en");
    assert_eq!(chosen.text("hello-world").unwrap(), "Hi!");
}

#[test]
fn locale_from_header_value() {
    let resources = catalog();
    let locale = Locale::negotiate(&resources, Some("de;q=0.9, fr;q=0.8, en;q=0.7"));
    assert_eq!(locale.bundle().locale().as_str(), "fr");
    assert_eq!(locale.text("hello-world").unwrap(), "Bonjour le monde!");
    let locale = Locale::negotiate(&resources, Some("fr;q=0.2, en;q=0.7"));
    assert_eq!(locale.text("hello-world").unwrap(), "Hello world!");
}

#[test]
fn locale_without_header_value_is_default() {
    let resources = catalog();
    let locale = Locale::negotiate(&resources, None);
    assert_eq!(locale.bundle().locale().as_str(), "en");
    let locale = Locale::negotiate(&resources, Some(""));
    assert_eq!(locale.bundle().locale().as_str(), "en");
    let locale = Locale::negotiate(&resources, Some("!!!, ???"));
    assert_eq!(locale.bundle().locale().as_str(), "en");
}

#[test]
fn text_is_rendered_as_the_engine_gives_it() {
    let english = bundle("en", ENGLISH);
    assert_eq!(english.text("hello-world").unwrap(), "Hello world!");
    let padded = bundle("en", "padded = {\"  two spaces  \"}\n");
    assert_eq!(padded.text("padded").unwrap(), "  two spaces  ");
}

#[test]
fn text_with_arguments() {
    let mut args = I18NArgs::new();
    args.set("name", "Bob");
    assert_eq!(
        bundle("en", ENGLISH).text_with_args("welcome", &args).unwrap(),
        "Welcome Bob!"
    );
    assert_eq!(
        bundle("fr", FRENCH).text_with_args("welcome", &args).unwrap(),
        "Bienvenue Bob!"
    );
}

#[test]
fn second_value_of_an_argument_replaces_the_first() {
    let mut args = I18NArgs::new();
    args.set("name", "Bob");
    args.set("other", "x");
    args.set("name", "Alice");
    assert_eq!(
        bundle("en", ENGLISH).text_with_args("welcome", &args).unwrap(),
        "Welcome Alice!"
    );
}

#[test]
fn isolation_marks_around_arguments() {
    let mut args = I18NArgs::new();
    args.set("name", "Bob");
    let isolating =
        I18NBundle::from_source(&LocaleId::parse("en").unwrap(), ENGLISH.to_string(), true).unwrap();
    assert_eq!(
        isolating.text_with_args("welcome", &args).unwrap(),
        "Welcome \u{2068}Bob\u{2069}!"
    );
}

#[test]
fn absent_message_is_not_found() {
    let english = bundle("en", ENGLISH);
    match english.text("no-such-message") {
        Err(I18NError::FluentMessageNotFound { id }) => assert_eq!(id, "no-such-message"),
        other => panic!("unexpected: {:?}", other),
    }
    match english.text_with_args("", &I18NArgs::new()) {
        Err(I18NError::FluentMessageNotFound { id }) => assert_eq!(id, ""),
        other => panic!("unexpected: {:?}", other),
    }
    let locale = Locale::negotiate(&catalog(), Some("fr"));
    match locale.text("only-attribute") {
        Err(I18NError::FluentMessageNotFound { id }) => assert_eq!(id, "only-attribute"),
        other => panic!("unexpected: {:?}", other),
    }
    assert!(!english.has_message("no-such-message"));
    assert!(english.has_message("welcome"));
}

#[test]
fn message_without_value() {
    let english = bundle("en", ENGLISH);
    assert!(english.has_message("only-attribute"));
    assert!(matches!(
        english.text("only-attribute"),
        Err(I18NError::FluentNoValue)
    ));
}

#[test]
fn engine_errors_are_handed_on() {
    let english = bundle("en", ENGLISH);
    match english.text("welcome") {
        Err(I18NError::Fluent(errors)) => assert_eq!(errors.len(), 1),
        other => panic!("unexpected: {:?}", other),
    }
    let broken = bundle("en", "broken = { missing-message } { -missing-term }\n");
    match broken.text("broken") {
        Err(I18NError::Fluent(errors)) => assert_eq!(errors.len(), 2),
        other => panic!("unexpected: {:?}", other),
    }
}

#[test]
fn source_that_is_no_template_text() {
    let locale = LocaleId::parse("en").unwrap();
    match I18NBundle::from_source(&locale, "hello-world = Hello\n= = =\n".to_string(), false) {
        Err(I18NError::FluentParser(errors)) => assert!(!errors.is_empty()),
        Err(other) => panic!("unexpected: {:?}", other),
        Ok(_) => panic!("unexpected success"),
    }
}

#[test]
fn source_that_defines_a_message_twice() {
    let locale = LocaleId::parse("en").unwrap();
    match I18NBundle::from_source(&locale, "a = one\na = two\n".to_string(), false) {
        Err(I18NError::Fluent(errors)) => assert_eq!(errors.len(), 1),
        Err(other) => panic!("unexpected: {:?}", other),
        Ok(_) => panic!("unexpected success"),
    }
}

#[test]
fn empty_source_gives_an_empty_bundle() {
    let empty = bundle("en", "");
    assert!(!empty.has_message("hello-world"));
    assert!(matches!(
        empty.text("hello-world"),
        Err(I18NError::FluentMessageNotFound { .. })
    ));
}

#[test]
fn tag_that_is_not_well_formed() {
    assert!(matches!(
        LocaleId::parse("not a tag"),
        Err(I18NError::LanguageIdentifier(_))
    ));
    assert!(matches!(
        LocaleId::parse(""),
        Err(I18NError::LanguageIdentifier(_))
    ));
    assert!(matches!(
        LocaleId::parse("en-US-x-toolongforasubtag"),
        Err(I18NError::LanguageIdentifier(_))
    ));
}

#[test]
fn terms_are_no_messages() {
    let english = bundle("en", "-brand = Fluent\nabout = About { -brand }\n");
    assert!(!english.has_message("-brand"));
    assert!(!english.has_message("brand"));
    assert_eq!(english.text("about").unwrap(), "About Fluent");
}

#[test]
fn list_keeps_what_is_inserted() {
    let mut ranked = LanguageArray::new();
    assert_eq!(ranked.len(), 0);
    ranked.insert(0, LocaleId::parse("en").unwrap());
    ranked.insert(0, LocaleId::parse("fr").unwrap());
    ranked.insert(1, LocaleId::parse("de").unwrap());
    assert_eq!(ranked.len(), 3);
    assert_eq!(ranked.get(0).as_str(), "fr");
    assert_eq!(ranked.get(1).as_str(), "de");
    assert_eq!(ranked.get(2).as_str(), "en");
    let items: Vec<String> = ranked.into_vec().iter().map(|id| id.as_str().to_string()).collect();
    assert_eq!(items, vec!["fr", "de", "en"]);
}

#[test]
fn clone_of_a_bundle_shares_its_messages() {
    let english = bundle("en", ENGLISH);
    let copy = english.clone();
    assert_eq!(copy.locale().as_str(), "en");
    assert_eq!(copy.text("hello-world").unwrap(), "Hello world!");
}

#[test]
fn bundle_holds_exactly_the_messages_of_its_source() {
    let built = bundle("en", "first = One\n-third = Three\nsecond = Two { -third }\n");
    assert!(built.has_message("first"));
    assert!(built.has_message("second"));
    assert!(!built.has_message("third"));
    assert!(!built.has_message("-third"));
    assert!(!built.has_message("fourth"));
    assert_eq!(built.text("second").unwrap(), "Two Three");
}

#[test]
fn same_source_gives_the_same_messages() {
    let one = bundle("en", ENGLISH);
    let other = bundle("fr", ENGLISH);
    for id in ["hello-world", "welcome", "only-attribute", "absent"] {
        assert_eq!(one.has_message(id), other.has_message(id));
    }
}

#[test]
fn term_and_message_of_one_name_conflict() {
    let locale = LocaleId::parse("en").unwrap();
    match I18NBundle::from_source(&locale, "-brand = Fluent\nbrand = Brand\n".to_string(), false) {
        Err(I18NError::Fluent(errors)) => assert_eq!(errors.len(), 1),
        Err(other) => panic!("unexpected: {:?}", other),
        Ok(_) => panic!("unexpected success"),
    }
}

#[test]
fn every_parsed_locale_is_taken_by_the_engine() {
    for tag in ["en", "EN_us", "zh-Hant-TW", "ca-ES-valencia", "und", "sr-Latn", "de-1996"] {
        let locale = LocaleId::parse(tag).unwrap();
        assert!(I18NBundle::from_source(&locale, GERMAN.to_string(), true).is_ok());
    }
}

#[test]
fn unreadable_source_reports_at_least_one_error() {
    let locale = LocaleId::parse("en").unwrap();
    for source in ["= no name\n", "name\n", "a = { \n", "good = fine\nbad\n"] {
        match I18NBundle::from_source(&locale, source.to_string(), false) {
            Err(I18NError::FluentParser(errors)) => assert!(!errors.is_empty()),
            Err(other) => panic!("unexpected: {:?}", other),
            Ok(_) => panic!("unexpected success for {:?}", source),
        }
    }
}

fn refused_as_unreadable(source: &str) -> Vec<fluent_syntax::parser::ParserError> {
    let locale = LocaleId::parse("en").unwrap();
    match I18NBundle::from_source(&locale, source.to_string(), false) {
        Err(I18NError::FluentParser(errors)) => errors,
        Err(other) => panic!("unexpected: {:?}", other),
        Ok(_) => panic!("unexpected success for {:?}", source),
    }
}

#[test]
fn placeable_directly_inside_a_placeable_is_not_taken() {
    let errors = refused_as_unreadable("nested = { { $name } }\n");
    assert_eq!(errors.len(), 1);
    assert_eq!(errors[0].pos, 9..10);
    assert_eq!(
        errors[0].kind,
        fluent_syntax::parser::ErrorKind::ExpectedInlineExpression
    );
    assert_eq!(refused_as_unreadable("nested = {{ $name }}\n").len(), 1);
    assert_eq!(refused_as_unreadable("nested = {\n    { $name }\n  }\n").len(), 1);
}

#[test]
fn selector_that_is_a_literal_is_not_taken() {
    let errors = refused_as_unreadable("pick = { 1 ->\n    [one] One\n   *[other] Other\n  }\n");
    assert_eq!(errors.len(), 1);
    assert_eq!(errors[0].pos, 11..12);
    assert_eq!(
        errors[0].kind,
        fluent_syntax::parser::ErrorKind::ExpectedSimpleExpressionAsSelector
    );
    assert_eq!(
        refused_as_unreadable("pick = { \"a\" ->\n    [a] A\n   *[b] B\n  }\n").len(),
        1
    );
    assert_eq!(
        refused_as_unreadable("pick = {-1.5->\n    [a] A\n   *[b] B\n  }\n").len(),
        1
    );
}

#[test]
fn message_that_would_exhaust_the_engine_is_not_taken() {
    let mut source = String::from("crowded = { \"a\" ->\n   *[a] ");
    for _ in 0..101 {
        source.push_str("{ $x }");
    }
    source.push_str("\n  }\n");
    assert_eq!(refused_as_unreadable(&source).len(), 1);
}

#[test]
fn too_many_placeables_are_reported_not_fatal() {
    let mut source = String::from("crowded = { $pick ->\n   *[a] ");
    for _ in 0..60 {
        source.push_str("{ $x }");
    }
    source.push_str("\n  }\ninner = ");
    for _ in 0..60 {
        source.push_str("{ $x }");
    }
    source.push_str("\nouter = { inner }{ inner }\nboth = { crowded }{ crowded }\n");
    let crowded = bundle("en", &source);
    let mut args = I18NArgs::new();
    args.set("x", "y");
    args.set("pick", "a");
    assert_eq!(crowded.text_with_args("inner", &args).unwrap().len(), 60);
    assert_eq!(crowded.text_with_args("crowded", &args).unwrap().len(), 60);
    assert!(matches!(
        crowded.text_with_args("outer", &args),
        Err(I18NError::Fluent(_))
    ));
    assert!(matches!(
        crowded.text_with_args("both", &args),
        Err(I18NError::Fluent(_))
    ));
}

#[test]
fn braces_and_arrows_that_are_taken() {
    let taken = bundle(
        "en",
        "brace = An opening brace: {\"{\"}\narrow = a -> b\nsteps = Step 1 -> Step 2\npick = { $n1 ->\n    [a] A\n   *[b] B\n  }\ncall = { NUMBER($n) ->\n   *[other] Other\n  }\n",
    );
    assert_eq!(taken.text("brace").unwrap(), "An opening brace: {");
    assert_eq!(taken.text("arrow").unwrap(), "a -> b");
    assert_eq!(taken.text("steps").unwrap(), "Step 1 -> Step 2");
    let mut args = I18NArgs::new();
    args.set("n1", "a");
    assert_eq!(taken.text_with_args("pick", &args).unwrap(), "A");
}

#[test]
fn number_argument_selects_a_variant() {
    let counted = bundle(
        "en",
        "items = { $count ->\n    [0] No items\n    [one] One item\n   *[other] { $count } items\n  }\n",
    );
    let mut args = I18NArgs::new();
    args.set_number("count", 1);
    assert_eq!(counted.text_with_args("items", &args).unwrap(), "One item");
    args.set_number("count", 0);
    assert_eq!(counted.text_with_args("items", &args).unwrap(), "No items");
    args.set_number("count", 5);
    assert_eq!(counted.text_with_args("items", &args).unwrap(), "5 items");
    args.set("count", "1");
    assert_eq!(counted.text_with_args("items", &args).unwrap(), "1 items");
}

#[test]
fn number_argument_follows_the_rules_of_the_locale() {
    let counted = bundle(
        "pl",
        "items = { $count ->\n    [one] jeden\n    [few] kilka\n   *[many] wiele\n  }\n",
    );
    let mut args = I18NArgs::new();
    args.set_number("count", 1);
    assert_eq!(counted.text_with_args("items", &args).unwrap(), "jeden");
    args.set_number("count", 3);
    assert_eq!(counted.text_with_args("items", &args).unwrap(), "kilka");
    args.set_number("count", 5);
    assert_eq!(counted.text_with_args("items", &args).unwrap(), "wiele");
    args.set_number("count", -7);
    assert_eq!(counted.text_with_args("items", &args).unwrap(), "wiele");
}

#[test]
fn choice_follows_the_weights_not_the_order_of_the_header() {
    let resources = catalog();
    let locale = Locale::negotiate(&resources, Some("en;q=0.3,fr;q=0.8"));
    assert_eq!(locale.bundle().locale().as_str(), "fr");
    assert_eq!(locale.text("hello-world").unwrap(), "Bonjour le monde!");
    let locale = Locale::negotiate(&resources, Some("en;q=0.8,fr;q=0.3"));
    assert_eq!(locale.bundle().locale().as_str(), "en");
}

#[test]
fn escape_that_the_parser_cannot_report_is_not_taken() {
    let errors = refused_as_unreadable("a = { \"\\u00é\" }\n");
    assert_eq!(errors.len(), 1);
    assert_eq!(errors[0].pos, 7..8);
    assert_eq!(
        errors[0].kind,
        fluent_syntax::parser::ErrorKind::InvalidUnicodeEscapeSequence("\\".to_string())
    );
    assert_eq!(refused_as_unreadable("a = { \"\\U0001fé\" }\n").len(), 1);
    assert_eq!(refused_as_unreadable("a = { \"\\ué\" }\n").len(), 1);
}

#[test]
fn escape_that_the_parser_reports_is_reported_by_it() {
    let errors = refused_as_unreadable("a = { \"\\u00x\" }\n");
    assert_eq!(errors.len(), 1);
    assert!(matches!(
        errors[0].kind,
        fluent_syntax::parser::ErrorKind::InvalidUnicodeEscapeSequence(_)
    ));
    let whole = bundle("en", "a = { \"\\u00e9\" }\nb = { \"\\U01F60A\" }é\n");
    assert_eq!(whole.text("a").unwrap(), "é");
    assert_eq!(whole.text("b").unwrap(), "😊é");
}

#[test]
fn place_of_a_refusal_is_counted_in_bytes() {
    let errors = refused_as_unreadable("é = x\nname = żółw { { $a } }\n");
    assert_eq!(errors.len(), 1);
    assert_eq!(errors[0].pos, 22..23);
}

#[test]
fn number_with_twenty_digits_behind_the_point_is_not_taken() {
    let source = "-t = { $n ->\n    [one] a\n   *[other] b\n  }\nm = { -t(n: 1.00000000000000000000) }\n";
    let errors = refused_as_unreadable(source);
    assert_eq!(errors.len(), 1);
    assert_eq!(
        errors[0].kind,
        fluent_syntax::parser::ErrorKind::ExpectedLiteral
    );
}

#[test]
fn number_with_nineteen_digits_behind_the_point_is_taken() {
    let source = "-t = { $n ->\n    [one] a\n   *[other] b\n  }\nm = { -t(n: 1.0000000000000000000) }\nk = { -t(n: 1.9999999999999999999) }\n";
    let taken = bundle("en", source);
    assert_eq!(taken.text("m").unwrap(), "b");
    assert_eq!(taken.text("k").unwrap(), "b");
}

#[test]
fn definition_that_opens_too_much_is_not_taken() {
    let mut source = String::from("deep = ");
    for _ in 0..201 {
        source.push_str("{ $a -> *[x] ");
    }
    for _ in 0..201 {
        source.push_str("}");
    }
    source.push('\n');
    let errors = refused_as_unreadable(&source);
    assert_eq!(errors.len(), 1);
    assert_eq!(
        errors[0].kind,
        fluent_syntax::parser::ErrorKind::ExpectedToken('}')
    );
    let mut source = String::from("calls = { ");
    for _ in 0..200 {
        source.push_str("F(");
    }
    source.push_str("1");
    for _ in 0..200 {
        source.push_str(")");
    }
    source.push_str(" }\n");
    assert_eq!(refused_as_unreadable(&source).len(), 1);
}

#[test]
fn many_definitions_with_few_placeables_each_are_taken() {
    let mut source = String::new();
    for i in 0..300 {
        source.push_str(&format!("m{} = {{ $a }} and {{ $b }} and {{ \"{{\" }}\n", i));
        source.push_str(&format!("-t{} = {{ $a }}\n", i));
    }
    let taken = bundle("en", &source);
    let mut args = I18NArgs::new();
    args.set("a", "1");
    args.set("b", "2");
    assert_eq!(taken.text_with_args("m299", &args).unwrap(), "1 and 2 and {");
}

#[test]
fn quoted_text_before_an_arrow_is_taken() {
    let taken = bundle("en", "say = say \"x\" -> y\nlater = { \"a\" } then\n    \"b\" -> c\n");
    assert_eq!(taken.text("say").unwrap(), "say \"x\" -> y");
    assert_eq!(taken.text("later").unwrap(), "a then\n\"b\" -> c");
}

#[test]
fn engine_errors_are_the_fluent_failure() {
    let english = bundle("en", ENGLISH);
    for _ in 0..2 {
        match english.text("welcome") {
            Err(I18NError::Fluent(errors)) => assert_eq!(errors.len(), 1),
            other => panic!("unexpected: {:?}", other),
        }
    }
}

#[test]
fn comments_may_hold_what_entries_may_not_open() {
    let mut source = String::new();
    for _ in 0..300 {
        source.push_str("# (see) {note}\n");
    }
    source.push_str("after = fine\n");
    assert_eq!(bundle("en", &source).text("after").unwrap(), "fine");
}
