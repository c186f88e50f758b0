use passwords::{ConfigError, Defects, PasswordGenerator};

#[test]
fn test_defects_with_symbols() {
    let passwords = Defects::with_symbols(1, 1).unwrap();
    let mut rng = rand::thread_rng();
    let input_outputs = [
        ("A", "4"),
        ("E", "3"),
        ("Q", "0"),
        ("J", "1"),
        ("Z", "2"),
        ("q", "9"),
        ("F", "+"),
        ("H", "#"),
    ];

    for (input, output) in input_outputs.iter() {
        assert_eq!(
            passwords.generate_with_seed(&mut rng, input.to_string()),
            output.to_string()
        );
    }
}

#[test]
fn test_defects_with_vowels_with_replacement() {
    let passwords = Defects::with_vowels(1, 1).unwrap();
    let mut rng = rand::thread_rng();
    let inputs = ["a", "e", "i", "o", "u"];

    for input in inputs.iter() {
        assert_ne!(
            passwords.generate_with_seed(&mut rng, input.to_string()),
            input.to_string()
        );
    }
}

#[test]
fn test_defects_with_vowels_without_replacement() {
    let passwords = Defects::with_vowels(1, 1).unwrap();
    let mut rng = rand::thread_rng();
    let inputs = ["A", "E", "I", "O", "U", "b", "c", "d", "f"];

    for input in inputs.iter() {
        assert_eq!(
            passwords.generate_with_seed(&mut rng, input.to_string()),
            input.to_string()
        );
    }
}

#[test]
fn vowel_defect_gives_another_vowel() {
    let passwords = Defects::with_vowels(1, 1).unwrap();
    let mut rng = rand::thread_rng();
    for input in ["a", "e", "i", "o", "u"].iter() {
        for _ in 0..20 {
            let out = passwords.generate_with_seed(&mut rng, input.to_string());
            assert_eq!(out.chars().count(), 1);
            assert!("aeiou".contains(&out));
            assert_ne!(&out, input);
        }
    }
}

#[test]
fn symbol_defect_on_l_uses_the_last_group() {
    let passwords = Defects::with_symbols(1, 1).unwrap();
    let mut rng = rand::thread_rng();
    for _ in 0..20 {
        let out = passwords.generate_with_seed(&mut rng, "L".to_string());
        assert!(out == "7" || out == "^", "unexpected {}", out);
    }
    for _ in 0..20 {
        assert_eq!(passwords.generate_with_seed(&mut rng, "l".to_string()), "1");
    }
}

#[test]
fn defect_count_stays_within_bounds() {
    let passwords = Defects::with_symbols(1, 2).unwrap();
    let mut rng = rand::thread_rng();
    let seed = "Hello Big World";
    let eligible = "AOoQELlIJijSsZzVvaNBPpqbdXxfFH";
    for _ in 0..50 {
        let out = passwords.generate_with_seed(&mut rng, seed.to_string());
        let a: Vec<char> = seed.chars().collect();
        let b: Vec<char> = out.chars().collect();
        assert_eq!(a.len(), b.len());
        let changed: Vec<usize> = (0..a.len()).filter(|&i| a[i] != b[i]).collect();
        assert!(changed.len() >= 1 && changed.len() <= 2, "{}", out);
        assert!(changed.iter().all(|&i| eligible.contains(a[i])));
    }
}

#[test]
fn defect_minimum_is_clamped_to_eligible_positions() {
    let passwords = Defects::with_vowels(3, 5).unwrap();
    let mut rng = rand::thread_rng();
    for _ in 0..20 {
        let out = passwords.generate_with_seed(&mut rng, "xyz".to_string());
        assert_eq!(out, "xyz");
        let out = passwords.generate_with_seed(&mut rng, "bat".to_string());
        assert_eq!(out.len(), 3);
        assert_ne!(out, "bat");
        assert!(out.starts_with('b') && out.ends_with('t'));
    }
    assert_eq!(passwords.generate_with_seed(&mut rng, String::new()), "");
}

#[test]
fn defect_bounds_reversed_is_rejected() {
    assert_eq!(Defects::with_symbols(2, 1).err(), Some(ConfigError::DefectBoundsReversed));
    assert_eq!(Defects::with_vowels(3, 0).err(), Some(ConfigError::DefectBoundsReversed));
    assert!(!ConfigError::DefectBoundsReversed.message().is_empty());
}
