use actix_i18n::{parse_accept_languages, parse_language, parse_quality, LocaleId};

fn ids(tags: &[&str]) -> Vec<LocaleId> {
    tags.iter().map(|tag| LocaleId::parse(tag).unwrap()).collect()
}

fn texts(value: &str) -> Vec<String> {
    parse_accept_languages(value)
        .into_vec()
        .iter()
        .map(|id| id.as_str().to_string())
        .collect()
}

#[test]
fn test_parse_accept_languages() {
    assert_eq!(
        parse_accept_languages("zh-CN;q=0.5,en-US;q=0.7,fr;q=0.3").into_vec(),
        ids(&["en-US", "zh-CN", "fr"])
    );

    assert_eq!(
        parse_accept_languages("zh-CN ; q=0.5,en-US;q = 0.7,   fr;q=0.3").into_vec(),
        ids(&["en-US", "zh-CN", "fr"])
    );

    assert_eq!(
        parse_accept_languages("en-US;q=0.7,zh-CN,fr;q=0.3").into_vec(),
        ids(&["zh-CN", "en-US", "fr"])
    );
}

#[test]
fn ranks_by_descending_weight() {
    assert_eq!(
        texts("fr;q=0.1,de;q=0.9,en;q=0.5,it;q=0.7"),
        vec!["de", "it", "en", "fr"]
    );
}

#[test]
fn keeps_input_order_among_equal_weights() {
    assert_eq!(
        texts("de;q=0.5,fr;q=0.5,en;q=0.5"),
        vec!["de", "fr", "en"]
    );
    assert_eq!(texts("de,fr,en"), vec!["de", "fr", "en"]);
    assert_eq!(
        texts("de;q=0.5,fr;q=0.8,en;q=0.5,it;q=0.8"),
        vec!["fr", "it", "de", "en"]
    );
}

#[test]
fn unweighted_entry_outranks_lighter_ones() {
    assert_eq!(texts("fr;q=0.999,en"), vec!["en", "fr"]);
    assert_eq!(texts("en,fr;q=1.0"), vec!["en", "fr"]);
    assert_eq!(texts("fr;q=1,en"), vec!["fr", "en"]);
}

#[test]
fn drops_malformed_tags() {
    assert_eq!(texts("en-US,!!!,fr;q=0.5"), vec!["en-US", "fr"]);
    assert_eq!(texts("*;q=0.1,de"), vec!["de"]);
    assert_eq!(texts("x,de;q=0.2,toolongsubtag,fr"), vec!["fr", "de"]);
    assert_eq!(texts("!!!"), Vec::<String>::new());
}

#[test]
fn empty_input_gives_no_language() {
    assert_eq!(texts(""), Vec::<String>::new());
    assert_eq!(texts(" , ,"), Vec::<String>::new());
    assert_eq!(parse_accept_languages("").len(), 0);
}

#[test]
fn tolerates_white_space() {
    assert_eq!(
        texts("  zh-CN\t;\tq\u{a0}=\u{3000}0.5 ,\nen-US ; q = 0.7 "),
        vec!["en-US", "zh-CN"]
    );
}

#[test]
fn more_than_eight_languages() {
    assert_eq!(
        texts("aa;q=0.1,bb;q=0.2,cc;q=0.3,dd;q=0.4,ee;q=0.5,ff;q=0.6,gg;q=0.7,hh;q=0.8,ii;q=0.9,jj"),
        vec!["jj", "ii", "hh", "gg", "ff", "ee", "dd", "cc", "bb", "aa"]
    );
}

#[test]
fn tags_come_back_as_written() {
    let written = ["en-US", "zh-Hant-TW", "ca-ES-valencia", "fr", "und", "sr-Latn"];
    let ranked = parse_accept_languages("en-US,zh-Hant-TW,ca-ES-valencia,fr,und,sr-Latn").into_vec();
    assert_eq!(ranked.len(), written.len());
    for (id, tag) in ranked.iter().zip(written.iter()) {
        assert_eq!(id.as_str(), *tag);
        assert_eq!(LocaleId::parse(id.as_str()).unwrap(), *id);
    }
}

#[test]
fn tags_are_put_in_canonical_form() {
    assert_eq!(LocaleId::parse("EN_us").unwrap().as_str(), "en-US");
    assert_eq!(LocaleId::parse("zh-hant-tw").unwrap().as_str(), "zh-Hant-TW");
    assert_eq!(
        LocaleId::parse("en-us").unwrap(),
        LocaleId::parse("EN-US").unwrap()
    );
    assert_ne!(
        LocaleId::parse("en").unwrap(),
        LocaleId::parse("en-US").unwrap()
    );
    assert_eq!(texts("EN_us;q=0.5"), vec!["en-US"]);
}

#[test]
fn entry_without_weight_has_full_weight() {
    let (id, quality) = parse_language("en-US").unwrap();
    assert_eq!(id.as_str(), "en-US");
    assert_eq!(quality, 1000);
}

#[test]
fn entry_with_weight() {
    let (id, quality) = parse_language("en-US;q=0.7").unwrap();
    assert_eq!(id.as_str(), "en-US");
    assert_eq!(quality, 700);
    assert_eq!(parse_language("zh-CN ; q=0.5").unwrap().1, 500);
    assert_eq!(parse_language("fr;q = 0.3").unwrap().1, 300);
    assert_eq!(parse_language(" fr ;q=0.3").unwrap().0.as_str(), "fr");
}

#[test]
fn entry_reads_its_first_parameter_only() {
    assert_eq!(parse_language("en;q=0.5;q=0.9").unwrap().1, 500);
    assert_eq!(parse_language("en;level=1;q=0.9").unwrap().1, 1000);
}

#[test]
fn parameter_that_is_no_weight_leaves_full_weight() {
    assert_eq!(parse_language("en;foo").unwrap().1, 1000);
    assert_eq!(parse_language("en;x=0.5").unwrap().1, 1000);
    assert_eq!(parse_language("en;q").unwrap().1, 1000);
    assert_eq!(parse_language("en;").unwrap().1, 1000);
    assert_eq!(parse_language("en;Q=0.5").unwrap().1, 1000);
}

#[test]
fn weight_that_is_no_number_counts_as_zero() {
    assert_eq!(parse_language("en;q=abc").unwrap().1, 0);
    assert_eq!(parse_language("en;q=").unwrap().1, 0);
    assert_eq!(parse_language("en; q = 1.2.3 ;q=0.5").unwrap().1, 0);
    assert_eq!(parse_language("en;q==1").unwrap().1, 0);
    assert_eq!(texts("en;q=abc,fr;q=0.001"), vec!["fr", "en"]);
}

#[test]
fn entry_with_malformed_tag_is_none() {
    assert!(parse_language("").is_none());
    assert!(parse_language("!!!").is_none());
    assert!(parse_language(";q=0.5").is_none());
    assert!(parse_language("e").is_none());
    assert!(parse_language("en-ÁÁÁÁ").is_none());
    assert!(parse_language("en us").is_none());
}

#[test]
fn quality_in_thousandths() {
    assert_eq!(parse_quality("q=0.5"), Some(500));
    assert_eq!(parse_quality("q=0.7"), Some(700));
    assert_eq!(parse_quality("q=0.3"), Some(300));
    assert_eq!(parse_quality("q=1"), Some(1000));
    assert_eq!(parse_quality("q=0"), Some(0));
    assert_eq!(parse_quality("q=0.001"), Some(1));
    assert_eq!(parse_quality("q=0.251"), Some(251));
    assert_eq!(parse_quality("q=0.999"), Some(999));
    assert_eq!(parse_quality("q=1.000"), Some(1000));
}

#[test]
fn quality_rounds_down() {
    assert_eq!(parse_quality("q=0.0009"), Some(0));
    assert_eq!(parse_quality("q=0.9999"), Some(999));
    assert_eq!(parse_quality("q=0.12345"), Some(123));
    assert_eq!(parse_quality("q=0.99999999999999999999999999"), Some(999));
}

#[test]
fn quality_is_limited_to_the_unit_range() {
    assert_eq!(parse_quality("q=1.5"), Some(1000));
    assert_eq!(parse_quality("q=2"), Some(1000));
    assert_eq!(parse_quality("q=100000000000000000000000000000000000000"), Some(1000));
    assert_eq!(parse_quality("q=-0.5"), Some(0));
    assert_eq!(parse_quality("q=-0"), Some(0));
    assert_eq!(parse_quality("q=-3"), Some(0));
}

#[test]
fn quality_forms_of_a_number() {
    assert_eq!(parse_quality("q=.5"), Some(500));
    assert_eq!(parse_quality("q=5."), Some(1000));
    assert_eq!(parse_quality("q=0."), Some(0));
    assert_eq!(parse_quality("q=+0.3"), Some(300));
    assert_eq!(parse_quality("q=007"), Some(1000));
    assert_eq!(parse_quality("q=000.250"), Some(250));
}

#[test]
fn quality_with_exponent() {
    assert_eq!(parse_quality("q=1e-1"), Some(100));
    assert_eq!(parse_quality("q=5E-1"), Some(500));
    assert_eq!(parse_quality("q=25e-2"), Some(250));
    assert_eq!(parse_quality("q=0.05e1"), Some(500));
    assert_eq!(parse_quality("q=0.05e+1"), Some(500));
    assert_eq!(parse_quality("q=1e0"), Some(1000));
    assert_eq!(parse_quality("q=1e3"), Some(1000));
    assert_eq!(parse_quality("q=1e-3"), Some(1));
    assert_eq!(parse_quality("q=1e-4"), Some(0));
    assert_eq!(parse_quality("q=0.0001e1"), Some(1));
    assert_eq!(parse_quality("q=0.0005e2"), Some(50));
    assert_eq!(parse_quality("q=123456789012345678901234567890e-30"), Some(123));
    assert_eq!(parse_quality("q=0.00000000000000000000001e23"), Some(1000));
    assert_eq!(parse_quality("q=0.00000000000000000000001e22"), Some(100));
}

#[test]
fn quality_with_huge_exponent() {
    assert_eq!(parse_quality("q=1e99999999999999999999999999999999"), Some(1000));
    assert_eq!(parse_quality("q=0e99999999999999999999999999999999"), Some(0));
    assert_eq!(parse_quality("q=0.000e99999999999999999999999999999999"), Some(0));
    assert_eq!(parse_quality("q=1e-99999999999999999999999999999999"), Some(0));
    assert_eq!(parse_quality("q=9e-00000000000000000000000000000001"), Some(900));
}

#[test]
fn quality_words() {
    assert_eq!(parse_quality("q=inf"), Some(1000));
    assert_eq!(parse_quality("q=Infinity"), Some(1000));
    assert_eq!(parse_quality("q=+INF"), Some(1000));
    assert_eq!(parse_quality("q=-inf"), Some(0));
    assert_eq!(parse_quality("q=nan"), Some(0));
    assert_eq!(parse_quality("q=NaN"), Some(0));
    assert_eq!(parse_quality("q=-nan"), Some(0));
}

#[test]
fn quality_that_is_no_number() {
    assert_eq!(parse_quality("q=abc"), None);
    assert_eq!(parse_quality("q="), None);
    assert_eq!(parse_quality("q=."), None);
    assert_eq!(parse_quality("q=e5"), None);
    assert_eq!(parse_quality("q=.e5"), None);
    assert_eq!(parse_quality("q=1e"), None);
    assert_eq!(parse_quality("q=1e+"), None);
    assert_eq!(parse_quality("q=1.5.3"), None);
    assert_eq!(parse_quality("q=0,5"), None);
    assert_eq!(parse_quality("q=0.5x"), None);
    assert_eq!(parse_quality("q=0 .5"), None);
    assert_eq!(parse_quality("q=+"), None);
    assert_eq!(parse_quality("q=--1"), None);
    assert_eq!(parse_quality("q=infinit"), None);
    assert_eq!(parse_quality("q=٠.٥"), None);
}

#[test]
fn quality_needs_the_name_q() {
    assert_eq!(parse_quality("x=1"), None);
    assert_eq!(parse_quality("Q=1"), None);
    assert_eq!(parse_quality("qq=1"), None);
    assert_eq!(parse_quality("=1"), None);
    assert_eq!(parse_quality("q"), None);
    assert_eq!(parse_quality(""), None);
    assert_eq!(parse_quality("0.5"), None);
}

#[test]
fn quality_tolerates_white_space() {
    assert_eq!(parse_quality(" q = 0.7 "), Some(700));
    assert_eq!(parse_quality("q\t=\t0.5"), Some(500));
    assert_eq!(parse_quality("\u{2003}q\u{2003}=\u{2003}0.5\u{2003}"), Some(500));
}

#[test]
fn quality_ignores_what_follows_a_second_equals_sign() {
    assert_eq!(parse_quality("q=0.5=3"), Some(500));
    assert_eq!(parse_quality("q==0.5"), None);
}
