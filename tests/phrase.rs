use passwords::{ConfigError, PasswordGenerator, RandomPhrases, RandomWords, Text};

const ALICE_IN_WONDERLAND: &str = "Alice was beginning to get very tired of sitting by her \
sister on the bank, and of having nothing to do: once or twice she had peeped into the book \
her sister was reading, but it had no pictures or conversations in it, 'and what is the use \
of a book,' thought Alice 'without pictures or conversations?'\n\
So she was considering in her own mind (as well as she could, for the hot day made her feel \
very sleepy and stupid), whether the pleasure of making a daisy-chain would be worth the \
trouble of getting up and picking the daisies, when suddenly a White Rabbit with pink eyes \
ran close by her.\n\
The rabbit-hole went straight on like a tunnel for some way, and then dipped suddenly down, \
so suddenly that Alice had not a moment to think about stopping herself before she found \
herself falling down a very deep well.\n\
Either the well was very deep, or she fell very slowly, for she had plenty of time as she \
went down to look about her and to wonder what was going to happen next.\n";

const THE_TIME_MACHINE: &str = "The Time Traveller (for so it will be convenient to speak \
of him) was expounding a recondite matter to us. His grey eyes shone and twinkled, and his \
usually pale face was flushed and animated. The fire burned brightly, and the soft radiance \
of the incandescent lights in the lilies of silver caught the bubbles that flashed and \
passed in our glasses.\n";

const NOUNS: &str = "apple\nbridge\ncandle\ndesert\nengine\nforest\ngarden\nharbor\nisland\n";

fn alice() -> Text<'static> {
    Text::new(ALICE_IN_WONDERLAND)
}

#[test]
fn test_text_load_words() {
    let words = alice().load_words();
    assert!(words.len() > 0);
}

#[test]
fn test_text_load_phrases() {
    let phrases = alice().load_phrases();
    assert!(phrases.len() > 0);
}

#[test]
fn test_texts() {
    assert!(Text::new(ALICE_IN_WONDERLAND).text().len() > 0);
    assert!(Text::new(THE_TIME_MACHINE).text().len() > 0);
    assert!(Text::new(NOUNS).text().len() > 0);
}

#[test]
fn test_random_words_from_text() {
    let passwords = RandomWords::from_text(&alice(), 4, 5).unwrap();

    assert_eq!(passwords.n_words(), 4);
    assert!(passwords.words().len() > 0);
    assert!(passwords.words().clone().into_iter().all(|word| word.len() >= 5));
}

#[test]
fn test_random_words_generate_with_seed() {
    let passwords = RandomWords::from_text(&alice(), 4, 5).unwrap();
    let mut rng = rand::thread_rng();

    for _ in 0..10 {
        let password = passwords.generate_with_seed(&mut rng, String::new());
        let words: Vec<&str> = password.split(" ").collect();
        assert_eq!(words.len(), 4);
        assert!(words
            .into_iter()
            .all(|word| { word.len() >= 5 && passwords.words().contains(&word.to_string()) }));
    }
}

#[test]
fn test_random_phrases_from_text() {
    let passwords = RandomPhrases::from_text(&alice(), 3, 5).unwrap();

    assert!(passwords.phrases().len() > 0);
    assert!(passwords
        .phrases()
        .clone()
        .into_iter()
        .all(|phrase| phrase.len() >= 3 && phrase.len() <= 5));
}

#[test]
fn test_random_phrases_generate_with_seed() {
    let passwords = RandomPhrases::from_text(&alice(), 3, 5).unwrap();
    let mut rng = rand::thread_rng();

    for _ in 0..10 {
        let password = passwords.generate_with_seed(&mut rng, String::new());
        let words: Vec<&str> = password.split(" ").collect();
        assert!(words.len() >= 3 && words.len() <= 5);
    }
}

fn strings(v: &[&str]) -> Vec<String> {
    v.iter().map(|s| s.to_string()).collect()
}

#[test]
fn segmentation_of_a_short_text() {
    let text = Text::new("Hello, world. Foo bar.");
    assert_eq!(text.load_words(), strings(&["hello", "world", "foo", "bar"]));
    assert_eq!(
        text.load_phrases(),
        vec![strings(&["hello"]), strings(&["world"]), strings(&["foo", "bar"]), vec![]]
    );
}

#[test]
fn segmentation_keeps_empty_phrases_and_drops_symbols() {
    let text = Text::new("A-b,,c\nD e!");
    assert_eq!(text.load_words(), strings(&["a", "b", "c", "d", "e"]));
    assert_eq!(
        text.load_phrases(),
        vec![strings(&["a", "b"]), vec![], strings(&["c", "d", "e"])]
    );
}

#[test]
fn segmentation_of_empty_text() {
    let text = Text::new("");
    assert!(text.load_words().is_empty());
    assert_eq!(text.load_phrases(), vec![Vec::<String>::new()]);
    let blank = Text::new("   \n ");
    assert!(blank.load_words().is_empty());
    assert_eq!(blank.load_phrases(), vec![Vec::<String>::new()]);
}

#[test]
fn word_pool_filters_by_byte_length() {
    let text = Text::new("an ox ate grass, quietly.");
    let passwords = RandomWords::from_text(&text, 2, 5).unwrap();
    assert_eq!(passwords.words().clone(), strings(&["grass", "quietly"]));
}

#[test]
fn words_join_a_non_empty_seed_with_a_space() {
    let text = Text::new("harbor");
    let passwords = RandomWords::from_text(&text, 2, 1).unwrap();
    let mut rng = rand::thread_rng();
    assert_eq!(passwords.generate_with_seed(&mut rng, "at".to_string()), "at harbor harbor");
    assert_eq!(passwords.generate_with_seed(&mut rng, String::new()), "harbor harbor");
}

#[test]
fn phrases_are_appended_without_separator() {
    let text = Text::new("red green blue.");
    let passwords = RandomPhrases::from_text(&text, 3, 3).unwrap();
    let mut rng = rand::thread_rng();
    assert_eq!(passwords.generate_with_seed(&mut rng, "x".to_string()), "xred green blue");
}

#[test]
fn empty_pools_are_rejected() {
    assert_eq!(
        RandomWords::from_text(&alice(), 4, 100).err(),
        Some(ConfigError::EmptyWordPool)
    );
    assert_eq!(
        RandomWords::from_text(&Text::new(""), 4, 0).err(),
        Some(ConfigError::EmptyWordPool)
    );
    assert_eq!(
        RandomPhrases::from_text(&alice(), 50, 60).err(),
        Some(ConfigError::EmptyPhrasePool)
    );
    assert_eq!(
        RandomPhrases::from_text(&alice(), 5, 3).err(),
        Some(ConfigError::EmptyPhrasePool)
    );
}

#[test]
fn empty_phrases_are_kept_when_the_minimum_is_zero() {
    let passwords = RandomPhrases::from_text(&Text::new("."), 0, 0).unwrap();
    let mut rng = rand::thread_rng();
    assert_eq!(passwords.phrases().len(), 2);
    assert_eq!(passwords.generate_with_seed(&mut rng, "s".to_string()), "s");
}
