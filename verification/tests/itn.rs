use glimpse_speech::itn::{apply_simple_english_itn, is_convertible, try_simple_english_itn};

#[test]
fn converts_compound_numbers() {
    let text = apply_simple_english_itn("I have five hundred sixty three files.");
    assert_eq!(text, "I have 563 files.");
}

#[test]
fn converts_hyphenated_numbers() {
    let text = apply_simple_english_itn("Room thirty-two is ready.");
    assert_eq!(text, "Room 32 is ready.");
}

#[test]
fn converts_decimal_numbers() {
    let text = apply_simple_english_itn("Version one point five is stable.");
    assert_eq!(text, "Version 1.5 is stable.");
}

#[test]
fn keeps_single_simple_number_words() {
    let text = apply_simple_english_itn("I want one apple.");
    assert_eq!(text, "I want one apple.");
}

#[test]
fn converts_negative_numbers() {
    let text = apply_simple_english_itn("temperature is negative forty two.");
    assert_eq!(text, "temperature is -42.");
}

#[test]
fn blank_text_gives_empty_text() {
    assert_eq!(apply_simple_english_itn("  \n\t "), "");
    assert_eq!(apply_simple_english_itn(""), "");
}

#[test]
fn magnitudes_close_groups() {
    assert_eq!(
        apply_simple_english_itn("two million three hundred thousand and six"),
        "2300006"
    );
    assert_eq!(apply_simple_english_itn("hundred"), "100");
    assert_eq!(apply_simple_english_itn("twenty"), "20");
}

#[test]
fn surrounding_punctuation_stays() {
    assert_eq!(apply_simple_english_itn("(twenty one)"), "(21)");
    assert_eq!(apply_simple_english_itn("a  b\nc"), "a b c");
}

#[test]
fn accents_inside_words_are_kept() {
    assert_eq!(
        try_simple_english_itn("résumés twenty"),
        Some("résumés 20".to_string())
    );
}

#[test]
fn words_that_cannot_be_cut_are_refused() {
    assert!(!is_convertible("café"));
    assert_eq!(try_simple_english_itn("café"), None);
}

#[test]
fn numbers_out_of_range_are_refused() {
    assert_eq!(
        try_simple_english_itn("nine hundred million"),
        Some("900000000".to_string())
    );
    let repeated = format!("nine{}", " hundred".repeat(30));
    assert!(!is_convertible(&repeated));
    assert_eq!(try_simple_english_itn(&repeated), None);
}

#[test]
fn text_without_numbers_keeps_its_words() {
    assert_eq!(
        apply_simple_english_itn("  keep \t these -- words,  please! "),
        "keep these -- words, please!"
    );
}

#[test]
fn rewriting_twice_changes_nothing() {
    for text in [
        "I have five hundred sixty three files.",
        "minus minus (twenty) and one apple",
        "one twenty-dog minus five point six seven eight!",
        "one point minus five and one hundred and",
        "negative forty two",
        "  one   and two-and ",
        "",
    ] {
        let once = apply_simple_english_itn(text);
        assert!(is_convertible(&once));
        assert_eq!(apply_simple_english_itn(&once), once, "{text}");
    }
    assert_eq!(apply_simple_english_itn("minus minus (twenty)"), "minus -20)");
}
