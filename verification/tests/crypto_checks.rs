use ever_subscription::crypto::PhraseError;
use ever_subscription::crypto::derive_from_phrase;
use ever_subscription::crypto::validate_phrase;
use ever_subscription::udp_rpc::make_query_prefix;

fn phrase_of(n: usize) -> String {
    let words: Vec<&str> = std::iter::repeat("abandon").take(n).collect();
    words.join(" ")
}

#[test]
fn validate_phrase_counts_words() {
    assert!(validate_phrase(&phrase_of(24)).is_ok());
    assert_eq!(validate_phrase(&phrase_of(23)), Err(PhraseError::WrongWordCount));
    assert_eq!(validate_phrase(&phrase_of(25)), Err(PhraseError::WrongWordCount));
    assert_eq!(validate_phrase(""), Err(PhraseError::WrongWordCount));
    // Repeated separators do not create words.
    let spaced = format!("  {}  ", phrase_of(24).replace(' ', "   "));
    assert!(validate_phrase(&spaced).is_ok());
}

#[test]
fn validate_phrase_checks_the_wordlist() {
    // A word outside the fixed wordlist is rejected even at the right
    // count, and before the count is judged.
    let bad24: Vec<&str> = std::iter::repeat("qqqq").take(24).collect();
    assert_eq!(validate_phrase(&bad24.join(" ")), Err(PhraseError::UnknownWord));
    let mut mixed: Vec<&str> = std::iter::repeat("abandon").take(24).collect();
    mixed[7] = "qqqq";
    assert_eq!(validate_phrase(&mixed.join(" ")), Err(PhraseError::UnknownWord));
    let three = "qqqq qqqq qqqq";
    assert_eq!(validate_phrase(three), Err(PhraseError::UnknownWord));
    // Cross-check membership against the wordlist crate itself.
    assert!(bip39::Language::English.wordmap().get_bits("abandon").is_some());
    assert!(bip39::Language::English.wordmap().get_bits("qqqq").is_none());
}

#[test]
fn derive_from_phrase_matches_the_primitives() {
    let phrase = phrase_of(24);
    let kp = derive_from_phrase(&phrase).unwrap();

    // Recompute the derivation with the underlying crates directly: the
    // phrase keys an HMAC-SHA-512 over the empty message, the tag is
    // stretched with PBKDF2 over "TON default seed", and the first 32
    // bytes are the secret key.
    let mac = <hmac::Hmac<sha2::Sha512> as hmac::KeyInit>::new_from_slice(phrase.as_bytes())
        .unwrap();
    let password = hmac::Mac::finalize(mac).into_bytes();
    let mut seed = [0u8; 64];
    pbkdf2::pbkdf2_hmac::<sha2::Sha512>(&password, b"TON default seed", 100000, &mut seed);
    assert_eq!(&kp.secret[..], &seed[0..32]);

    let expected_public = ed25519_dalek::SigningKey::from_bytes(&kp.secret)
        .verifying_key()
        .to_bytes();
    assert_eq!(kp.public, expected_public);
}

#[test]
fn derive_from_phrase_rejects_bad_phrases() {
    let three_valid: Vec<&str> = std::iter::repeat("abandon").take(3).collect();
    assert_eq!(
        derive_from_phrase(&three_valid.join(" ")),
        Err(PhraseError::WrongWordCount)
    );
    let bad: Vec<&str> = std::iter::repeat("qqqq").take(24).collect();
    assert_eq!(derive_from_phrase(&bad.join(" ")), Err(PhraseError::UnknownWord));
}

#[test]
fn derivation_is_deterministic() {
    let phrase = phrase_of(24);
    let kp1 = derive_from_phrase(&phrase).unwrap();
    let kp2 = derive_from_phrase(&phrase).unwrap();
    assert_eq!(kp1, kp2);
    let other = format!("{} ability", phrase_of(23));
    let kp3 = derive_from_phrase(&other).unwrap();
    assert_ne!(kp1.secret, kp3.secret);
}

#[test]
fn query_prefix_matches_the_overlay_computation() {
    let zerostate = [7u8; 32];
    let prefix = make_query_prefix(&zerostate);

    // Recompute the prefix with the network crate directly.
    let overlay_id_full =
        everscale_network::overlay::IdFull::for_workchain_overlay(-1, &zerostate);
    let overlay_id = overlay_id_full.compute_short_id();
    let expected = everscale_network::tl::serialize(everscale_network::proto::rpc::OverlayQuery {
        overlay: overlay_id.as_slice(),
    });
    assert_eq!(prefix, expected);

    // A different zerostate yields a different prefix.
    let other = make_query_prefix(&[8u8; 32]);
    assert_ne!(prefix, other);
}
