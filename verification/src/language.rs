//! The languages that the utilities know, with their identifiers and the
//! characters that separate words in them.

use vstd::prelude::*;
use vstd::string::StringExecFns;
use crate::unicode::lowercase_of;
use std::str::FromStr;

verus! {

/// The punctuation characters shared by all languages.
pub const PUNCTUATION: &'static str = "!\"#$%&'()*+,-./:;<=>?@[\\]^_`{|}~";

/// The separator between words where a language has no other.
pub const SPACE: &'static str = " ";

/// The supported languages.
#[allow(non_camel_case_types)]
#[derive(Copy, Clone, Debug, PartialEq, Eq, Structural)]
pub enum Language {
    DE,
    EN,
    ES,
    FR,
    IT,
    JA,
    KO,
    PT_PT,
    PT_BR,
}

/// The error of parsing an identifier that names no language.
#[derive(Debug)]
pub struct UnknownLanguage {
    /// The identifier as it was given.
    pub identifier: String,
}

impl UnknownLanguage {
    /// A sentence that names the identifier.
    pub fn message(&self) -> (message: String)
        ensures
            message@ == "Unknown language "@ + self.identifier@,
    {
        "Unknown language ".to_owned().concat(self.identifier.as_str())
    }
}

/// The language whose identifier is `tag`, if there is one. Identifiers
/// are in lowercase.
pub open spec fn language_of_tag(tag: Seq<char>) -> Option<Language> {
    if tag == "de"@ {
        Some(Language::DE)
    } else if tag == "en"@ {
        Some(Language::EN)
    } else if tag == "es"@ {
        Some(Language::ES)
    } else if tag == "fr"@ {
        Some(Language::FR)
    } else if tag == "it"@ {
        Some(Language::IT)
    } else if tag == "ja"@ {
        Some(Language::JA)
    } else if tag == "ko"@ {
        Some(Language::KO)
    } else if tag == "pt_pt"@ {
        Some(Language::PT_PT)
    } else if tag == "pt_br"@ {
        Some(Language::PT_BR)
    } else {
        None
    }
}

/// The identifier of a language denotes that language, so no two
/// languages share one.
pub proof fn lemma_tag_denotes_language(language: Language)
    ensures
        language_of_tag(language.tag()) == Some(language),
{
    reveal_strlit("de");
    reveal_strlit("en");
    reveal_strlit("es");
    reveal_strlit("fr");
    reveal_strlit("it");
    reveal_strlit("ja");
    reveal_strlit("ko");
    reveal_strlit("pt_pt");
    reveal_strlit("pt_br");
    // The first two characters tell the identifiers apart, and the fourth
    // where these agree.
    let tag = language.tag();
    assert(tag[0] == 'd' || tag[0] == 'e' || tag[0] == 'f' || tag[0] == 'i' || tag[0] == 'j'
        || tag[0] == 'k' || tag[0] == 'p');
    assert(tag[1] == 'e' || tag[1] == 'n' || tag[1] == 's' || tag[1] == 'r' || tag[1] == 't'
        || tag[1] == 'a' || tag[1] == 'o');
    assert(tag.len() == 5 ==> tag[3] == 'p' || tag[3] == 'b');
}

impl Language {
    /// The identifier of the language.
    pub open spec fn tag(self) -> Seq<char> {
        match self {
            Language::DE => "de"@,
            Language::EN => "en"@,
            Language::ES => "es"@,
            Language::FR => "fr"@,
            Language::IT => "it"@,
            Language::JA => "ja"@,
            Language::KO => "ko"@,
            Language::PT_PT => "pt_pt"@,
            Language::PT_BR => "pt_br"@,
        }
    }

    /// All languages, in the order of their declaration.
    pub fn all() -> (languages: Vec<Language>)
        ensures
            languages@ == seq![
                Language::DE,
                Language::EN,
                Language::ES,
                Language::FR,
                Language::IT,
                Language::JA,
                Language::KO,
                Language::PT_PT,
                Language::PT_BR,
            ],
    {
        let languages = vec![
            Language::DE,
            Language::EN,
            Language::ES,
            Language::FR,
            Language::IT,
            Language::JA,
            Language::KO,
            Language::PT_PT,
            Language::PT_BR,
        ];
        assert(languages@ =~= seq![
            Language::DE,
            Language::EN,
            Language::ES,
            Language::FR,
            Language::IT,
            Language::JA,
            Language::KO,
            Language::PT_PT,
            Language::PT_BR,
        ]);
        languages
    }

    /// The language with the identifier `tag`, which is matched as it
    /// stands: `None` unless it is one of the nine identifiers.
    pub fn from_tag(tag: &str) -> (language: Option<Language>)
        ensures
            language == language_of_tag(tag@),
    {
        if tag.eq("de") {
            Some(Language::DE)
        } else if tag.eq("en") {
            Some(Language::EN)
        } else if tag.eq("es") {
            Some(Language::ES)
        } else if tag.eq("fr") {
            Some(Language::FR)
        } else if tag.eq("it") {
            Some(Language::IT)
        } else if tag.eq("ja") {
            Some(Language::JA)
        } else if tag.eq("ko") {
            Some(Language::KO)
        } else if tag.eq("pt_pt") {
            Some(Language::PT_PT)
        } else if tag.eq("pt_br") {
            Some(Language::PT_BR)
        } else {
            None
        }
    }

    /// The punctuation characters of the language.
    pub fn punctuation(&self) -> (characters: &'static str)
        ensures
            characters@ == PUNCTUATION@,
    {
        PUNCTUATION
    }

    /// The string that separates words in the language.
    pub fn default_separator(&self) -> (separator: &'static str)
        ensures
            separator@ == SPACE@,
    {
        SPACE
    }
}

impl FromStr for Language {
    type Err = UnknownLanguage;

    /// Parses the identifier of a language, in any case of letters. An
    /// identifier that is none of the nine, once in lowercase, is handed
    /// back in the error.
    fn from_str(it: &str) -> (parsed: Result<Language, UnknownLanguage>)
        ensures
            match parsed {
                Ok(language) => language_of_tag(lowercase_of(it@)) == Some(language),
                Err(unknown) => language_of_tag(lowercase_of(it@)) is None
                    && unknown.identifier@ == it@,
            },
    {
        match Language::from_tag(it.to_lowercase().as_str()) {
            Some(language) => Ok(language),
            None => Err(UnknownLanguage { identifier: it.to_owned() }),
        }
    }
}

impl ToString for Language {
    /// The identifier of the language.
    fn to_string(&self) -> (identifier: String)
        ensures
            identifier@ == self.tag(),
    {
        match *self {
            Language::DE => "de".to_owned(),
            Language::EN => "en".to_owned(),
            Language::ES => "es".to_owned(),
            Language::FR => "fr".to_owned(),
            Language::IT => "it".to_owned(),
            Language::JA => "ja".to_owned(),
            Language::KO => "ko".to_owned(),
            Language::PT_PT => "pt_pt".to_owned(),
            Language::PT_BR => "pt_br".to_owned(),
        }
    }
}

} // verus!
