use snips_nlu_utils::language::{Language, UnknownLanguage, PUNCTUATION, SPACE};
use std::str::FromStr;

#[test]
fn all_languages_are_listed_in_order() {
    assert_eq!(
        vec![
            Language::DE,
            Language::EN,
            Language::ES,
            Language::FR,
            Language::IT,
            Language::JA,
            Language::KO,
            Language::PT_PT,
            Language::PT_BR,
        ],
        Language::all()
    );
}

#[test]
fn identifiers_parse_in_any_case() {
    assert_eq!(Language::DE, Language::from_str("de").unwrap());
    assert_eq!(Language::EN, Language::from_str("EN").unwrap());
    assert_eq!(Language::ES, Language::from_str("Es").unwrap());
    assert_eq!(Language::FR, Language::from_str("fR").unwrap());
    assert_eq!(Language::IT, Language::from_str("it").unwrap());
    assert_eq!(Language::JA, Language::from_str("JA").unwrap());
    assert_eq!(Language::KO, Language::from_str("ko").unwrap());
    assert_eq!(Language::PT_PT, Language::from_str("pt_PT").unwrap());
    assert_eq!(Language::PT_BR, Language::from_str("PT_BR").unwrap());
}

#[test]
fn unknown_identifier_is_an_error() {
    for identifier in ["", "english", "pt", "pt-br", " en", "e n"] {
        let error: UnknownLanguage = Language::from_str(identifier).unwrap_err();
        assert_eq!(identifier, error.identifier);
    }
    let error = Language::from_str("Klingon").unwrap_err();
    assert_eq!("Klingon", error.identifier);
    assert_eq!("Unknown language Klingon", error.message());
}

#[test]
fn identifiers_parse_through_str() {
    assert_eq!(Language::FR, "FR".parse::<Language>().unwrap());
    assert_eq!("fra", "fra".parse::<Language>().unwrap_err().identifier);
}

#[test]
fn tags_are_matched_as_they_stand() {
    assert_eq!(Some(Language::KO), Language::from_tag("ko"));
    assert_eq!(Some(Language::PT_BR), Language::from_tag("pt_br"));
    assert_eq!(None, Language::from_tag("KO"));
    assert_eq!(None, Language::from_tag(""));
}

#[test]
fn identifier_round_trips() {
    for language in Language::all() {
        assert_eq!(language, Language::from_str(&language.to_string()).unwrap());
    }
    assert_eq!("de", Language::DE.to_string());
    assert_eq!("pt_pt", Language::PT_PT.to_string());
    assert_eq!("pt_br", Language::PT_BR.to_string());
}

#[test]
fn punctuation_and_separator_are_shared() {
    for language in Language::all() {
        assert_eq!("!\"#$%&'()*+,-./:;<=>?@[\\]^_`{|}~", language.punctuation());
        assert_eq!(" ", language.default_separator());
    }
    assert_eq!(32, PUNCTUATION.len());
    assert_eq!(" ", SPACE);
}
