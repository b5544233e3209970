//! The languages that messages can be shown in.
use vstd::prelude::*;

use crate::text::{lower_of, lowercase, str_eq};

verus! {

#[derive(Clone, Copy, Debug, PartialEq, Eq, Hash, Structural)]
pub enum Locale {
    En,
    Es,
}

/// The locale that a (lowercased) language name selects.
pub open spec fn locale_named(lower: Seq<char>) -> Option<Locale> {
    if lower == "en"@ || lower == "english"@ {
        Some(Locale::En)
    } else if lower == "es"@ || lower == "spanish"@ || lower == "español"@ {
        Some(Locale::Es)
    } else {
        None
    }
}

impl Locale {
    /// The locale for a language name or code, in any case.
    pub fn from_str(s: &str) -> (r: Option<Locale>)
        ensures
            r == locale_named(lower_of(s@)),
    {
        let l = lowercase(s);
        Self::from_lowercase(l.as_str())
    }

    /// The locale for a lowercase language name or code.
    pub fn from_lowercase(l: &str) -> (r: Option<Locale>)
        ensures
            r == locale_named(l@),
    {
        proof {
            reveal_strlit("en");
            reveal_strlit("english");
            reveal_strlit("es");
            reveal_strlit("spanish");
            reveal_strlit("español");
        }
        if str_eq(l, "en") || str_eq(l, "english") {
            Some(Locale::En)
        } else if str_eq(l, "es") || str_eq(l, "spanish") || str_eq(l, "español") {
            Some(Locale::Es)
        } else {
            None
        }
    }

    /// The locale's code.
    pub fn as_str(&self) -> (r: &'static str)
        ensures
            r@ == match *self {
                Locale::En => "en"@,
                Locale::Es => "es"@,
            },
    {
        match self {
            Locale::En => "en",
            Locale::Es => "es",
        }
    }

    /// The file that holds the locale's message table.
    pub fn file_name(&self) -> (r: &'static str)
        ensures
            r@ == match *self {
                Locale::En => "locales/en.yaml"@,
                Locale::Es => "locales/es.yaml"@,
            },
    {
        match self {
            Locale::En => "locales/en.yaml",
            Locale::Es => "locales/es.yaml",
        }
    }
}

} // verus!
