//! The locale tag of a request.
use vstd::prelude::*;

verus! {

/// A language the API can answer in. It is sent as the `lang` query
/// parameter and is part of the cache key of locale-sensitive endpoints.
#[derive(Clone, Copy, Debug, PartialEq, Eq, Structural, Hash)]
pub enum Language {
    En,
    Fr,
    De,
    Es,
    Zh,
}

impl Language {
    /// The two-letter code of the language.
    pub open spec fn code(self) -> Seq<char> {
        match self {
            Language::En => "en"@,
            Language::Fr => "fr"@,
            Language::De => "de"@,
            Language::Es => "es"@,
            Language::Zh => "zh"@,
        }
    }

    /// The two-letter code as it stands in a URL.
    pub fn as_str(&self) -> (s: &'static str)
        ensures
            s@ == self.code(),
    {
        match self {
            Language::En => "en",
            Language::Fr => "fr",
            Language::De => "de",
            Language::Es => "es",
            Language::Zh => "zh",
        }
    }
}

impl Default for Language {
    fn default() -> (l: Language)
        ensures
            l == Language::En,
    {
        Language::En
    }
}

} // verus!
