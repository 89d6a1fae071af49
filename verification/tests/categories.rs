use cargo_languagetool::languagetool;
use cargo_languagetool::languagetool::categories::Categories;

#[test]
fn names_are_screaming_snake_case() {
    assert_eq!(Categories::Casing.name(), "CASING");
    assert_eq!(Categories::ConfusedWords.name(), "CONFUSED_WORDS");
    assert_eq!(Categories::AmericanEnglishStyle.name(), "AMERICAN_ENGLISH_STYLE");
    assert_eq!(Categories::PlainEnglish.name(), "PLAIN_ENGLISH");
    assert_eq!(Categories::Collocations.name(), "COLLOCATIONS");
}

#[test]
fn from_name_inverts_name() {
    let all = [
        Categories::Casing,
        Categories::Colloquialisms,
        Categories::Compounding,
        Categories::ConfusedWords,
        Categories::FalseFriends,
        Categories::GenderNeutrality,
        Categories::Grammar,
        Categories::Misc,
        Categories::PlainEnglish,
        Categories::Punctuation,
        Categories::Redundancy,
        Categories::Regionalisms,
        Categories::Repetitions,
        Categories::RepetitionsStyle,
        Categories::Semantics,
        Categories::Style,
        Categories::Typography,
        Categories::Typos,
        Categories::Wikipedia,
        Categories::AmericanEnglishStyle,
        Categories::NonstandardPhrases,
        Categories::Collocations,
    ];
    for c in all {
        assert_eq!(Categories::from_name(&c.name()), Some(c));
    }
    assert_eq!(Categories::from_name("NO_SUCH_CATEGORY"), None);
    assert_eq!(Categories::from_name("casing"), None);
}

#[test]
fn the_older_copy_agrees() {
    assert_eq!(languagetool::Categories::GenderNeutrality.name(), "GENDER_NEUTRALITY");
    assert_eq!(
        languagetool::Categories::from_name("REPETITIONS_STYLE"),
        Some(languagetool::Categories::RepetitionsStyle)
    );
}
