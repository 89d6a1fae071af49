//! The remote grammar checker's interface model: rule categories, check
//! requests, and the matches a check reports.

use vstd::prelude::*;

use crate::text::str_eq;

pub mod categories;

verus! {

/// A rule category understood by the remote checker.
///
/// This copy predates [`categories::Categories`] and is kept alongside it;
/// the configuration types use the one in [`categories`].
#[derive(Debug, Clone, Copy, PartialEq, Eq, Structural)]
pub enum Categories {
    Casing,
    Colloquialisms,
    Compounding,
    ConfusedWords,
    FalseFriends,
    GenderNeutrality,
    Grammar,
    Misc,
    PlainEnglish,
    Punctuation,
    Redundancy,
    Regionalisms,
    Repetitions,
    RepetitionsStyle,
    Semantics,
    Style,
    Typography,
    Typos,
    Wikipedia,
    AmericanEnglishStyle,
    NonstandardPhrases,
    Collocations,
}

/// The wire name of a category, in screaming snake case.
pub open spec fn spec_category_name(c: Categories) -> Seq<char> {
    match c {
        Categories::Casing => "CASING"@,
        Categories::Colloquialisms => "COLLOQUIALISMS"@,
        Categories::Compounding => "COMPOUNDING"@,
        Categories::ConfusedWords => "CONFUSED_WORDS"@,
        Categories::FalseFriends => "FALSE_FRIENDS"@,
        Categories::GenderNeutrality => "GENDER_NEUTRALITY"@,
        Categories::Grammar => "GRAMMAR"@,
        Categories::Misc => "MISC"@,
        Categories::PlainEnglish => "PLAIN_ENGLISH"@,
        Categories::Punctuation => "PUNCTUATION"@,
        Categories::Redundancy => "REDUNDANCY"@,
        Categories::Regionalisms => "REGIONALISMS"@,
        Categories::Repetitions => "REPETITIONS"@,
        Categories::RepetitionsStyle => "REPETITIONS_STYLE"@,
        Categories::Semantics => "SEMANTICS"@,
        Categories::Style => "STYLE"@,
        Categories::Typography => "TYPOGRAPHY"@,
        Categories::Typos => "TYPOS"@,
        Categories::Wikipedia => "WIKIPEDIA"@,
        Categories::AmericanEnglishStyle => "AMERICAN_ENGLISH_STYLE"@,
        Categories::NonstandardPhrases => "NONSTANDARD_PHRASES"@,
        Categories::Collocations => "COLLOCATIONS"@,
    }
}

/// The category whose wire name is `s`, if any.
pub open spec fn spec_category_of_name(s: Seq<char>) -> Option<Categories> {
    if s == spec_category_name(Categories::Casing) {
        Some(Categories::Casing)
    } else if s == spec_category_name(Categories::Colloquialisms) {
        Some(Categories::Colloquialisms)
    } else if s == spec_category_name(Categories::Compounding) {
        Some(Categories::Compounding)
    } else if s == spec_category_name(Categories::ConfusedWords) {
        Some(Categories::ConfusedWords)
    } else if s == spec_category_name(Categories::FalseFriends) {
        Some(Categories::FalseFriends)
    } else if s == spec_category_name(Categories::GenderNeutrality) {
        Some(Categories::GenderNeutrality)
    } else if s == spec_category_name(Categories::Grammar) {
        Some(Categories::Grammar)
    } else if s == spec_category_name(Categories::Misc) {
        Some(Categories::Misc)
    } else if s == spec_category_name(Categories::PlainEnglish) {
        Some(Categories::PlainEnglish)
    } else if s == spec_category_name(Categories::Punctuation) {
        Some(Categories::Punctuation)
    } else if s == spec_category_name(Categories::Redundancy) {
        Some(Categories::Redundancy)
    } else if s == spec_category_name(Categories::Regionalisms) {
        Some(Categories::Regionalisms)
    } else if s == spec_category_name(Categories::Repetitions) {
        Some(Categories::Repetitions)
    } else if s == spec_category_name(Categories::RepetitionsStyle) {
        Some(Categories::RepetitionsStyle)
    } else if s == spec_category_name(Categories::Semantics) {
        Some(Categories::Semantics)
    } else if s == spec_category_name(Categories::Style) {
        Some(Categories::Style)
    } else if s == spec_category_name(Categories::Typography) {
        Some(Categories::Typography)
    } else if s == spec_category_name(Categories::Typos) {
        Some(Categories::Typos)
    } else if s == spec_category_name(Categories::Wikipedia) {
        Some(Categories::Wikipedia)
    } else if s == spec_category_name(Categories::AmericanEnglishStyle) {
        Some(Categories::AmericanEnglishStyle)
    } else if s == spec_category_name(Categories::NonstandardPhrases) {
        Some(Categories::NonstandardPhrases)
    } else if s == spec_category_name(Categories::Collocations) {
        Some(Categories::Collocations)
    } else {
        None
    }
}

impl Categories {
    /// The wire name of this category, as sent to the remote checker.
    pub fn name(&self) -> (r: String)
        ensures
            r@ == spec_category_name(*self),
    {
        match self {
            Categories::Casing => "CASING".to_owned(),
            Categories::Colloquialisms => "COLLOQUIALISMS".to_owned(),
            Categories::Compounding => "COMPOUNDING".to_owned(),
            Categories::ConfusedWords => "CONFUSED_WORDS".to_owned(),
            Categories::FalseFriends => "FALSE_FRIENDS".to_owned(),
            Categories::GenderNeutrality => "GENDER_NEUTRALITY".to_owned(),
            Categories::Grammar => "GRAMMAR".to_owned(),
            Categories::Misc => "MISC".to_owned(),
            Categories::PlainEnglish => "PLAIN_ENGLISH".to_owned(),
            Categories::Punctuation => "PUNCTUATION".to_owned(),
            Categories::Redundancy => "REDUNDANCY".to_owned(),
            Categories::Regionalisms => "REGIONALISMS".to_owned(),
            Categories::Repetitions => "REPETITIONS".to_owned(),
            Categories::RepetitionsStyle => "REPETITIONS_STYLE".to_owned(),
            Categories::Semantics => "SEMANTICS".to_owned(),
            Categories::Style => "STYLE".to_owned(),
            Categories::Typography => "TYPOGRAPHY".to_owned(),
            Categories::Typos => "TYPOS".to_owned(),
            Categories::Wikipedia => "WIKIPEDIA".to_owned(),
            Categories::AmericanEnglishStyle => "AMERICAN_ENGLISH_STYLE".to_owned(),
            Categories::NonstandardPhrases => "NONSTANDARD_PHRASES".to_owned(),
            Categories::Collocations => "COLLOCATIONS".to_owned(),
        }
    }

    /// The category with the given wire name, if any.
    pub fn from_name(s: &str) -> (r: Option<Categories>)
        ensures
            r == spec_category_of_name(s@),
    {
        if str_eq(s, "CASING") {
            Some(Categories::Casing)
        } else if str_eq(s, "COLLOQUIALISMS") {
            Some(Categories::Colloquialisms)
        } else if str_eq(s, "COMPOUNDING") {
            Some(Categories::Compounding)
        } else if str_eq(s, "CONFUSED_WORDS") {
            Some(Categories::ConfusedWords)
        } else if str_eq(s, "FALSE_FRIENDS") {
            Some(Categories::FalseFriends)
        } else if str_eq(s, "GENDER_NEUTRALITY") {
            Some(Categories::GenderNeutrality)
        } else if str_eq(s, "GRAMMAR") {
            Some(Categories::Grammar)
        } else if str_eq(s, "MISC") {
            Some(Categories::Misc)
        } else if str_eq(s, "PLAIN_ENGLISH") {
            Some(Categories::PlainEnglish)
        } else if str_eq(s, "PUNCTUATION") {
            Some(Categories::Punctuation)
        } else if str_eq(s, "REDUNDANCY") {
            Some(Categories::Redundancy)
        } else if str_eq(s, "REGIONALISMS") {
            Some(Categories::Regionalisms)
        } else if str_eq(s, "REPETITIONS") {
            Some(Categories::Repetitions)
        } else if str_eq(s, "REPETITIONS_STYLE") {
            Some(Categories::RepetitionsStyle)
        } else if str_eq(s, "SEMANTICS") {
            Some(Categories::Semantics)
        } else if str_eq(s, "STYLE") {
            Some(Categories::Style)
        } else if str_eq(s, "TYPOGRAPHY") {
            Some(Categories::Typography)
        } else if str_eq(s, "TYPOS") {
            Some(Categories::Typos)
        } else if str_eq(s, "WIKIPEDIA") {
            Some(Categories::Wikipedia)
        } else if str_eq(s, "AMERICAN_ENGLISH_STYLE") {
            Some(Categories::AmericanEnglishStyle)
        } else if str_eq(s, "NONSTANDARD_PHRASES") {
            Some(Categories::NonstandardPhrases)
        } else if str_eq(s, "COLLOCATIONS") {
            Some(Categories::Collocations)
        } else {
            None
        }
    }
}

/// How strict the remote check is asked to be.
#[derive(Debug, Clone, Copy, PartialEq, Eq, Structural)]
pub enum CheckLevel {
    Default,
    Picky,
}

/// One request to the remote checker: the text to check and the options
/// that shape the check. Two requests are the same request exactly when
/// their serialized forms are byte-identical.
#[derive(Debug)]
pub struct CheckRequest {
    pub text: Vec<char>,
    pub language: String,
    pub username: Option<String>,
    pub api_key: Option<String>,
    pub level: CheckLevel,
    pub enabled_categories: Vec<String>,
    pub disabled_categories: Vec<String>,
    pub enabled_rules: Vec<String>,
    pub disabled_rules: Vec<String>,
    pub enabled_only: bool,
}

/// The mathematical value of a [`CheckRequest`].
#[verifier::ext_equal]
pub struct RequestV {
    pub text: Seq<char>,
    pub language: Seq<char>,
    pub username: Option<Seq<char>>,
    pub api_key: Option<Seq<char>>,
    pub level: CheckLevel,
    pub enabled_categories: Seq<Seq<char>>,
    pub disabled_categories: Seq<Seq<char>>,
    pub enabled_rules: Seq<Seq<char>>,
    pub disabled_rules: Seq<Seq<char>>,
    pub enabled_only: bool,
}

/// The view of an optional credential string.
pub open spec fn opt_string_view(o: Option<String>) -> Option<Seq<char>> {
    match o {
        Some(s) => Some(s@),
        None => None,
    }
}

impl View for CheckRequest {
    type V = RequestV;

    open spec fn view(&self) -> RequestV {
        RequestV {
            text: self.text@,
            language: self.language@,
            username: opt_string_view(self.username),
            api_key: opt_string_view(self.api_key),
            level: self.level,
            enabled_categories: self.enabled_categories@.map_values(|s: String| s@),
            disabled_categories: self.disabled_categories@.map_values(|s: String| s@),
            enabled_rules: self.enabled_rules@.map_values(|s: String| s@),
            disabled_rules: self.disabled_rules@.map_values(|s: String| s@),
            enabled_only: self.enabled_only,
        }
    }
}

/// The part of the checked text that surrounds a match, with the match's
/// place inside it.
#[derive(Debug)]
pub struct MatchContext {
    pub text: Vec<char>,
    pub offset: usize,
    pub length: usize,
}

/// The mathematical value of a [`MatchContext`].
#[verifier::ext_equal]
pub struct ContextV {
    pub text: Seq<char>,
    pub offset: int,
    pub length: int,
}

impl View for MatchContext {
    type V = ContextV;

    open spec fn view(&self) -> ContextV {
        ContextV { text: self.text@, offset: self.offset as int, length: self.length as int }
    }
}

/// One finding of the remote checker. As returned by the checker, `offset`,
/// `length` and `context` are relative to the checked text; remapping turns
/// them into file-local coordinates.
#[derive(Debug)]
pub struct CheckMatch {
    pub offset: usize,
    pub length: usize,
    pub message: Vec<char>,
    pub rule_id: Vec<char>,
    pub rule_description: Vec<char>,
    pub category_id: Vec<char>,
    pub replacements: Vec<Vec<char>>,
    pub context: MatchContext,
}

/// A match whose coordinates are file-local. Same shape as [`CheckMatch`];
/// only the meaning of the coordinate fields differs.
pub type RemappedMatch = CheckMatch;

/// The mathematical value of a [`CheckMatch`].
#[verifier::ext_equal]
pub struct MatchV {
    pub offset: int,
    pub length: int,
    pub message: Seq<char>,
    pub rule_id: Seq<char>,
    pub rule_description: Seq<char>,
    pub category_id: Seq<char>,
    pub replacements: Seq<Seq<char>>,
    pub context: ContextV,
}

impl View for CheckMatch {
    type V = MatchV;

    open spec fn view(&self) -> MatchV {
        MatchV {
            offset: self.offset as int,
            length: self.length as int,
            message: self.message@,
            rule_id: self.rule_id@,
            rule_description: self.rule_description@,
            category_id: self.category_id@,
            replacements: self.replacements@.map_values(|s: Vec<char>| s@),
            context: self.context@,
        }
    }
}

/// A failure of the remote check call, as reported by the caller that
/// performed it.
#[derive(Debug)]
pub struct RemoteError {
    pub message: String,
}

/// The remote checker's answer: the matches it found.
#[derive(Debug)]
pub struct CheckResponse {
    pub matches: Vec<CheckMatch>,
}

impl View for CheckResponse {
    type V = Seq<MatchV>;

    open spec fn view(&self) -> Seq<MatchV> {
        self.matches@.map_values(|m: CheckMatch| m@)
    }
}

} // verus!
