use passwords::random_string::{ASCII_LOWERCASE, ASCII_UPPERCASE, DIGITS};
use passwords::{ConfigError, PasswordGenerator, RandomString};

#[test]
fn test_random_string_new() {
    let characters = RandomString::new(5).characters().clone().sort();
    let expected_characters = format!("{}{}{}", DIGITS, ASCII_LOWERCASE, ASCII_UPPERCASE)
        .chars()
        .into_iter()
        .collect::<Vec<char>>()
        .sort();

    assert_eq!(characters, expected_characters);
}

#[test]
fn test_random_string_with_characters() {
    let characters = "lmnop";
    assert_eq!(
        RandomString::new(5)
            .with_characters(characters.chars().collect())
            .unwrap()
            .characters()
            .clone(),
        characters.chars().collect::<Vec<char>>()
    );
}

#[test]
fn test_random_string_digits() {
    assert_eq!(
        RandomString::digits(5).characters().clone(),
        "0123456789".chars().collect::<Vec<char>>()
    );
}

#[test]
fn test_random_string_ascii_lowercase() {
    assert_eq!(
        RandomString::ascii_lowercase(5).characters().clone(),
        "abcdefghijklmnopqrstuvwxyz".chars().collect::<Vec<char>>()
    );
}

#[test]
fn test_random_string_ascii_uppercase() {
    assert_eq!(
        RandomString::ascii_uppercase(5).characters().clone(),
        "ABCDEFGHIJKLMNOPQRSTUVWXYZ".chars().collect::<Vec<char>>()
    );
}

#[test]
fn test_random_string_generate_with_trivial_seed() {
    let length = 5;
    let characters: Vec<char> = "lmnop".chars().collect();
    let passwords = RandomString::new(length).with_characters(characters.clone()).unwrap();

    let mut rng = rand::thread_rng();

    for _ in 0..10 {
        let password = passwords.generate_with_seed(&mut rng, String::new());
        assert_eq!(password.len(), length);
        assert!(password
            .chars()
            .into_iter()
            .all(|c| { characters.contains(&c) }));
    }
}

#[test]
fn test_random_string_generate_with_nontrivial_seed() {
    let length = 5;
    let characters: Vec<char> = "01_.,!?".chars().collect();
    let passwords = RandomString::new(length).with_characters(characters.clone()).unwrap();

    let mut rng = rand::thread_rng();

    for _ in 0..10 {
        let password = passwords.generate_with_seed(&mut rng, "Ahh".to_string());
        assert_eq!(password.len(), length + 3);
        assert_eq!(&password[..3], "Ahh");
        assert!(password[3..]
            .chars()
            .into_iter()
            .all(|c| { characters.contains(&c) }));
    }
}

#[test]
fn random_string_new_alphabet_in_order() {
    let expected: Vec<char> = format!("{}{}{}", ASCII_LOWERCASE, ASCII_UPPERCASE, DIGITS)
        .chars()
        .collect();
    assert_eq!(RandomString::new(3).characters().clone(), expected);
    assert_eq!(RandomString::new(3).length(), 3);
}

#[test]
fn random_string_single_character_alphabet() {
    let passwords = RandomString::new(4).with_characters(vec!['z']).unwrap();
    let mut rng = rand::thread_rng();
    assert_eq!(passwords.generate_with_seed(&mut rng, "ab".to_string()), "abzzzz");
    let none = RandomString::digits(0);
    assert_eq!(none.generate_with_seed(&mut rng, "ab".to_string()), "ab");
}

#[test]
fn random_string_empty_alphabet_is_rejected() {
    assert_eq!(
        RandomString::new(4).with_characters(Vec::new()).err(),
        Some(ConfigError::EmptyAlphabet)
    );
}
