//! Seed phrases.
use huddle_core::crypto::mnemonic::{phrase_to_seed, seed_to_phrase};

fn zero_seed_phrase() -> String {
    let mut words = vec!["abandon"; 23];
    words.push("art");
    words.join(" ")
}

#[test]
fn zero_seed_matches_bip39_vector() {
    let phrase = seed_to_phrase(&[0u8; 32]);
    assert_eq!(phrase, zero_seed_phrase());
    assert_eq!(phrase.split_whitespace().count(), 24);
    assert_eq!(phrase_to_seed(&zero_seed_phrase()).unwrap(), [0u8; 32]);
}

#[test]
fn round_trips_random_seeds() {
    for _ in 0..32 {
        let seed: [u8; 32] = rand::random();
        let phrase = seed_to_phrase(&seed);
        assert_eq!(phrase.split_whitespace().count(), 24);
        assert_eq!(phrase_to_seed(&phrase).unwrap(), seed);
    }
}

#[test]
fn is_case_insensitive_and_trims_whitespace() {
    let seed = [7u8; 32];
    let phrase = seed_to_phrase(&seed);
    let messy = format!("  \t {} \n  ", phrase.to_uppercase().replace(' ', "  "));
    assert_eq!(phrase_to_seed(&messy).unwrap(), seed);
}

#[test]
fn rejects_bad_checksum() {
    let bad_checksum = vec!["abandon"; 24].join(" ");
    assert!(phrase_to_seed(&bad_checksum).is_err());
}

#[test]
fn rejects_off_wordlist_word() {
    let mut words = vec!["abandon"; 23];
    words.push("notabip39word");
    assert!(phrase_to_seed(&words.join(" ")).is_err());
}

#[test]
fn rejects_wrong_word_count() {
    let short = vec!["abandon"; 23].join(" ");
    assert!(phrase_to_seed(&short).is_err());
}

#[test]
fn a_phrase_of_twelve_words_is_too_short_a_seed() {
    let mut words = vec!["abandon"; 11];
    words.push("about");
    let e = phrase_to_seed(&words.join(" ")).unwrap_err();
    assert_eq!(
        e.message(),
        "identity error: seed phrase decodes to 16 bytes; expected a 24-word (32-byte) phrase"
    );
}
