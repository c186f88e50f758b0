use passwords::{Case, PasswordGenerator};

#[test]
fn test_case_generate() {
    let mut rng = rand::thread_rng();
    assert_eq!(Case::Camel.generate(&mut rng), "");
}

#[test]
fn test_case_generate_with_seed() {
    let mut rng = rand::thread_rng();
    let seed = "which case is this";
    let case_outputs = [
        (Case::Camel, "whichCaseIsThis"),
        // (Case::Class, "WhichCaseIsThis"),
        (Case::Kebab, "which-case-is-this"),
        (Case::Lower, "which case is this"),
        (Case::Screaming, "WHICH_CASE_IS_THIS"),
        (Case::Snake, "which_case_is_this"),
        (Case::Table, "which_case_is_this"),
        (Case::Title, "Which Case Is This"),
        (Case::Upper, "WHICH CASE IS THIS"),
    ];

    for (case, output) in case_outputs.iter() {
        assert_eq!(case.generate_with_seed(&mut rng, seed.to_string()), *output);
    }
}

#[test]
fn case_lower_and_upper_change_the_text() {
    let mut rng = rand::thread_rng();
    assert_eq!(Case::Lower.generate_with_seed(&mut rng, "MiXeD Case".to_string()), "mixed case");
    assert_eq!(Case::Upper.generate_with_seed(&mut rng, "MiXeD Case".to_string()), "MIXED CASE");
}

#[test]
fn case_sentence_and_class() {
    let mut rng = rand::thread_rng();
    assert_eq!(
        Case::Sentence.generate_with_seed(&mut rng, "which case is this".to_string()),
        "Which case is this"
    );
    assert_eq!(
        Case::Class.generate_with_seed(&mut rng, "red apple tree".to_string()),
        "RedAppleTree"
    );
}
