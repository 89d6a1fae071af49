//! Rule categories of the remote grammar checker, by their wire names.

use vstd::prelude::*;

use crate::text::str_eq;

verus! {

/// A rule category understood by the remote checker.
#[derive(Debug, Clone, Copy, PartialEq, Eq, Structural)]
#[non_exhaustive]
pub enum Categories {
    Casing,
    Colloquialisms,
    Compounding,
    ConfusedWords,
    FalseFriends,
    GenderNeutrality,
    Grammar,
    Misc,
    PlainEnglish,
    Punctuation,
    Redundancy,
    Regionalisms,
    Repetitions,
    RepetitionsStyle,
    Semantics,
    Style,
    Typography,
    Typos,
    Wikipedia,
    AmericanEnglishStyle,
    NonstandardPhrases,
    Collocations,
}

/// The wire name of a category, in screaming snake case.
pub open spec fn spec_category_name(c: Categories) -> Seq<char> {
    match c {
        Categories::Casing => "CASING"@,
        Categories::Colloquialisms => "COLLOQUIALISMS"@,
        Categories::Compounding => "COMPOUNDING"@,
        Categories::ConfusedWords => "CONFUSED_WORDS"@,
        Categories::FalseFriends => "FALSE_FRIENDS"@,
        Categories::GenderNeutrality => "GENDER_NEUTRALITY"@,
        Categories::Grammar => "GRAMMAR"@,
        Categories::Misc => "MISC"@,
        Categories::PlainEnglish => "PLAIN_ENGLISH"@,
        Categories::Punctuation => "PUNCTUATION"@,
        Categories::Redundancy => "REDUNDANCY"@,
        Categories::Regionalisms => "REGIONALISMS"@,
        Categories::Repetitions => "REPETITIONS"@,
        Categories::RepetitionsStyle => "REPETITIONS_STYLE"@,
        Categories::Semantics => "SEMANTICS"@,
        Categories::Style => "STYLE"@,
        Categories::Typography => "TYPOGRAPHY"@,
        Categories::Typos => "TYPOS"@,
        Categories::Wikipedia => "WIKIPEDIA"@,
        Categories::AmericanEnglishStyle => "AMERICAN_ENGLISH_STYLE"@,
        Categories::NonstandardPhrases => "NONSTANDARD_PHRASES"@,
        Categories::Collocations => "COLLOCATIONS"@,
    }
}

/// The category whose wire name is `s`, if any.
pub open spec fn spec_category_of_name(s: Seq<char>) -> Option<Categories> {
    if s == spec_category_name(Categories::Casing) {
        Some(Categories::Casing)
    } else if s == spec_category_name(Categories::Colloquialisms) {
        Some(Categories::Colloquialisms)
    } else if s == spec_category_name(Categories::Compounding) {
        Some(Categories::Compounding)
    } else if s == spec_category_name(Categories::ConfusedWords) {
        Some(Categories::ConfusedWords)
    } else if s == spec_category_name(Categories::FalseFriends) {
        Some(Categories::FalseFriends)
    } else if s == spec_category_name(Categories::GenderNeutrality) {
        Some(Categories::GenderNeutrality)
    } else if s == spec_category_name(Categories::Grammar) {
        Some(Categories::Grammar)
    } else if s == spec_category_name(Categories::Misc) {
        Some(Categories::Misc)
    } else if s == spec_category_name(Categories::PlainEnglish) {
        Some(Categories::PlainEnglish)
    } else if s == spec_category_name(Categories::Punctuation) {
        Some(Categories::Punctuation)
    } else if s == spec_category_name(Categories::Redundancy) {
        Some(Categories::Redundancy)
    } else if s == spec_category_name(Categories::Regionalisms) {
        Some(Categories::Regionalisms)
    } else if s == spec_category_name(Categories::Repetitions) {
        Some(Categories::Repetitions)
    } else if s == spec_category_name(Categories::RepetitionsStyle) {
        Some(Categories::RepetitionsStyle)
    } else if s == spec_category_name(Categories::Semantics) {
        Some(Categories::Semantics)
    } else if s == spec_category_name(Categories::Style) {
        Some(Categories::Style)
    } else if s == spec_category_name(Categories::Typography) {
        Some(Categories::Typography)
    } else if s == spec_category_name(Categories::Typos) {
        Some(Categories::Typos)
    } else if s == spec_category_name(Categories::Wikipedia) {
        Some(Categories::Wikipedia)
    } else if s == spec_category_name(Categories::AmericanEnglishStyle) {
        Some(Categories::AmericanEnglishStyle)
    } else if s == spec_category_name(Categories::NonstandardPhrases) {
        Some(Categories::NonstandardPhrases)
    } else if s == spec_category_name(Categories::Collocations) {
        Some(Categories::Collocations)
    } else {
        None
    }
}

impl Categories {
    /// The wire name of this category, as sent to the remote checker.
    pub fn name(&self) -> (r: String)
        ensures
            r@ == spec_category_name(*self),
    {
        match self {
            Categories::Casing => "CASING".to_owned(),
            Categories::Colloquialisms => "COLLOQUIALISMS".to_owned(),
            Categories::Compounding => "COMPOUNDING".to_owned(),
            Categories::ConfusedWords => "CONFUSED_WORDS".to_owned(),
            Categories::FalseFriends => "FALSE_FRIENDS".to_owned(),
            Categories::GenderNeutrality => "GENDER_NEUTRALITY".to_owned(),
            Categories::Grammar => "GRAMMAR".to_owned(),
            Categories::Misc => "MISC".to_owned(),
            Categories::PlainEnglish => "PLAIN_ENGLISH".to_owned(),
            Categories::Punctuation => "PUNCTUATION".to_owned(),
            Categories::Redundancy => "REDUNDANCY".to_owned(),
            Categories::Regionalisms => "REGIONALISMS".to_owned(),
            Categories::Repetitions => "REPETITIONS".to_owned(),
            Categories::RepetitionsStyle => "REPETITIONS_STYLE".to_owned(),
            Categories::Semantics => "SEMANTICS".to_owned(),
            Categories::Style => "STYLE".to_owned(),
            Categories::Typography => "TYPOGRAPHY".to_owned(),
            Categories::Typos => "TYPOS".to_owned(),
            Categories::Wikipedia => "WIKIPEDIA".to_owned(),
            Categories::AmericanEnglishStyle => "AMERICAN_ENGLISH_STYLE".to_owned(),
            Categories::NonstandardPhrases => "NONSTANDARD_PHRASES".to_owned(),
            Categories::Collocations => "COLLOCATIONS".to_owned(),
        }
    }

    /// The category with the given wire name, if any.
    pub fn from_name(s: &str) -> (r: Option<Categories>)
        ensures
            r == spec_category_of_name(s@),
    {
        if str_eq(s, "CASING") {
            Some(Categories::Casing)
        } else if str_eq(s, "COLLOQUIALISMS") {
            Some(Categories::Colloquialisms)
        } else if str_eq(s, "COMPOUNDING") {
            Some(Categories::Compounding)
        } else if str_eq(s, "CONFUSED_WORDS") {
            Some(Categories::ConfusedWords)
        } else if str_eq(s, "FALSE_FRIENDS") {
            Some(Categories::FalseFriends)
        } else if str_eq(s, "GENDER_NEUTRALITY") {
            Some(Categories::GenderNeutrality)
        } else if str_eq(s, "GRAMMAR") {
            Some(Categories::Grammar)
        } else if str_eq(s, "MISC") {
            Some(Categories::Misc)
        } else if str_eq(s, "PLAIN_ENGLISH") {
            Some(Categories::PlainEnglish)
        } else if str_eq(s, "PUNCTUATION") {
            Some(Categories::Punctuation)
        } else if str_eq(s, "REDUNDANCY") {
            Some(Categories::Redundancy)
        } else if str_eq(s, "REGIONALISMS") {
            Some(Categories::Regionalisms)
        } else if str_eq(s, "REPETITIONS") {
            Some(Categories::Repetitions)
        } else if str_eq(s, "REPETITIONS_STYLE") {
            Some(Categories::RepetitionsStyle)
        } else if str_eq(s, "SEMANTICS") {
            Some(Categories::Semantics)
        } else if str_eq(s, "STYLE") {
            Some(Categories::Style)
        } else if str_eq(s, "TYPOGRAPHY") {
            Some(Categories::Typography)
        } else if str_eq(s, "TYPOS") {
            Some(Categories::Typos)
        } else if str_eq(s, "WIKIPEDIA") {
            Some(Categories::Wikipedia)
        } else if str_eq(s, "AMERICAN_ENGLISH_STYLE") {
            Some(Categories::AmericanEnglishStyle)
        } else if str_eq(s, "NONSTANDARD_PHRASES") {
            Some(Categories::NonstandardPhrases)
        } else if str_eq(s, "COLLOCATIONS") {
            Some(Categories::Collocations)
        } else {
            None
        }
    }
}

} // verus!
