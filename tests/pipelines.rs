use passwords::{
    iterator, or, phrase_passwords, pipe, xkcd_mixed_passwords, xkcd_passwords, ConfigError,
    Constant, PasswordGenerator, Text,
};

const STORY: &str = "The fire burned brightly, and the soft radiance of the lights caught \
the bubbles. His grey eyes shone. We sat down quietly, then the old clock ticked loudly.";

#[test]
fn pipe_of_constants_appends_both() {
    let mut rng = rand::thread_rng();
    let g = pipe(Constant::new("x"), Constant::new("y"));
    assert_eq!(g.generate(&mut rng), "xy");
    assert_eq!(g.generate_with_seed(&mut rng, "s".to_string()), "sxy");
}

#[test]
fn empty_constant_keeps_the_seed() {
    let mut rng = rand::thread_rng();
    assert_eq!(Constant::empty().generate_with_seed(&mut rng, "keep".to_string()), "keep");
}

#[test]
fn or_picks_each_side_about_half_the_time() {
    let mut rng = rand::thread_rng();
    let g = or(Constant::new("a"), Constant::new("b"));
    let trials = 4000;
    let mut a = 0;
    let mut b = 0;
    for _ in 0..trials {
        let out = g.generate(&mut rng);
        if out == "a" {
            a += 1;
        } else if out == "b" {
            b += 1;
        } else {
            panic!("mixed output {}", out);
        }
    }
    assert_eq!(a + b, trials);
    assert!(a > 1700 && b > 1700, "a = {}, b = {}", a, b);
}

#[test]
fn iterator_yields_a_password_per_pull() {
    let mut rng = rand::thread_rng();
    let mut passwords = iterator(pipe(Constant::new("p"), Constant::new("w")));
    for _ in 0..3 {
        assert_eq!(passwords.next(&mut rng), "pw");
    }
}

#[test]
fn phrase_passwords_have_the_expected_shape() {
    let text = Text::new(STORY);
    let g = phrase_passwords(&text).unwrap();
    let mut rng = rand::thread_rng();
    for _ in 0..20 {
        let password = g.generate(&mut rng);
        assert!(!password.contains(' '));
        assert!(password.chars().count() >= 5);
    }
}

#[test]
fn phrase_passwords_need_a_short_phrase() {
    let text = Text::new("one two three four five six seven.");
    assert_eq!(phrase_passwords(&text).err(), Some(ConfigError::EmptyPhrasePool));
}

#[test]
fn xkcd_passwords_have_four_words() {
    let text = Text::new(STORY);
    let g = xkcd_passwords(&text).unwrap();
    let mut rng = rand::thread_rng();
    for _ in 0..20 {
        let password = g.generate(&mut rng);
        let words: Vec<&str> = password.split(' ').collect();
        assert_eq!(words.len(), 4);
        assert!(words.iter().all(|w| w.len() >= 4));
    }
    assert_eq!(xkcd_passwords(&Text::new("a b c")).err(), Some(ConfigError::EmptyWordPool));
}

#[test]
fn xkcd_mixed_passwords_draw_from_one_text_per_call() {
    let nouns = Text::new("apple\nbridge\ncandle\n");
    let other = Text::new("quietly, loudly, brightly.");
    let g = xkcd_mixed_passwords(&nouns, &other).unwrap();
    let mut rng = rand::thread_rng();
    let from_nouns = ["apple", "bridge", "candle"];
    let from_other = ["quietly", "loudly", "brightly"];
    for _ in 0..40 {
        let password = g.generate(&mut rng);
        let words: Vec<&str> = password.split(' ').collect();
        assert_eq!(words.len(), 4);
        let all_nouns = words.iter().all(|w| from_nouns.contains(w));
        let all_other = words.iter().all(|w| from_other.contains(w));
        assert!(all_nouns || all_other, "{}", password);
    }
    assert_eq!(
        xkcd_mixed_passwords(&nouns, &Text::new("tiny")).err(),
        Some(ConfigError::EmptyWordPool)
    );
}

#[test]
fn config_errors_describe_themselves() {
    for e in [
        ConfigError::EmptyAlphabet,
        ConfigError::EmptyWordPool,
        ConfigError::EmptyPhrasePool,
        ConfigError::DefectBoundsReversed,
    ]
    .iter()
    {
        assert!(!e.message().is_empty());
    }
}
