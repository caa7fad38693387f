use glimpse_speech::dictionary::{build_dictionary_prompt, sanitize_dictionary_entries};

#[test]
fn sanitize_dictionary_entries_deduplicates_case_insensitively() {
    let cleaned = sanitize_dictionary_entries(&[
        "  Glimpse ".to_string(),
        "glimpse".to_string(),
        "  ".to_string(),
        "Speech".to_string(),
    ]);

    assert_eq!(cleaned, vec!["Glimpse".to_string(), "Speech".to_string()]);
}

#[test]
fn build_dictionary_prompt_joins_terms() {
    let prompt = build_dictionary_prompt(&["alpha".to_string(), "beta".to_string()]);
    assert_eq!(prompt.as_deref(), Some("alpha, beta."));
}

#[test]
fn letter_case_is_that_of_unicode() {
    let cleaned = sanitize_dictionary_entries(&["ÄPFEL".to_string(), "äpfel".to_string()]);
    assert_eq!(cleaned, vec!["ÄPFEL".to_string()]);
}

#[test]
fn the_first_spelling_wins() {
    let cleaned = sanitize_dictionary_entries(
        &["openAI", "ada", " OpenAI", "ADA\t", "Grace"].map(String::from),
    );
    assert_eq!(cleaned, vec!["openAI", "ada", "Grace"]);
}

#[test]
fn entries_and_their_length_are_capped() {
    let many: Vec<String> = (0..100).map(|i| format!("term {i}")).collect();
    assert_eq!(sanitize_dictionary_entries(&many).len(), 64);

    let long = "x".repeat(400);
    assert_eq!(
        sanitize_dictionary_entries(&[long]),
        vec!["x".repeat(160)]
    );
    let spaced = format!("{} {}", "y".repeat(159), "z");
    assert_eq!(sanitize_dictionary_entries(&[spaced]), vec!["y".repeat(159)]);
}

#[test]
fn prompts_stop_at_the_first_term_that_does_not_fit() {
    let terms: Vec<String> = (0..5).map(|i| format!("{i}{}", "a".repeat(149))).collect();
    let prompt = build_dictionary_prompt(&terms).expect("three terms fit");
    assert_eq!(prompt.len(), 3 * 150 + 2 * 2 + 1);
    assert_eq!(build_dictionary_prompt(&[]), None);
    assert_eq!(build_dictionary_prompt(&["東".repeat(160), "b".to_string()]), Some(format!("{}, b.", "東".repeat(160))));
}
