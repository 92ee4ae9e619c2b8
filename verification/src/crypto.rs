//! Legacy key derivation from a 24-word seed phrase: the phrase is
//! checked for shape, turned into a password with HMAC-SHA-512,
//! stretched with PBKDF2, and the first 32 bytes of the stretched seed
//! become the Ed25519 secret key.

use vstd::prelude::*;
use vstd::string::StringSliceAdditionalSpecFns;

verus! {

/// The number of words a seed phrase must have.
pub const PHRASE_WORD_COUNT: u64 = 24;

/// PBKDF2 iteration count for the seed derivation.
pub const PBKDF_ITERATIONS: u32 = 100000;

/// Why a phrase was rejected.
#[derive(Clone, Copy, Debug, PartialEq, Eq, Structural)]
pub enum PhraseError {
    /// The phrase does not consist of exactly 24 words.
    WrongWordCount,
    /// A word of the phrase is not in the fixed wordlist.
    UnknownWord,
}

impl PhraseError {
    /// A short description of the rejection.
    pub fn describe(&self) -> (r: &'static str)
        ensures
            r@ == (match self {
                PhraseError::WrongWordCount => "Expected 24 words"@,
                PhraseError::UnknownWord => "invalid word in phrase"@,
            }),
    {
        match self {
            PhraseError::WrongWordCount => "Expected 24 words",
            PhraseError::UnknownWord => "invalid word in phrase",
        }
    }
}

/// Whether a byte is ASCII whitespace, the separator between the words
/// of a seed phrase. Separators are deliberately the ASCII whitespace
/// bytes: the wordlist is ASCII, and a phrase using other separators
/// holds no valid words.
pub open spec fn spec_is_space(b: u8) -> bool {
    b == 32 || b == 9 || b == 10 || b == 13 || b == 11 || b == 12
}

/// The whitespace-separated words of the bytes still to read, with
/// `cur` the word begun just before them.
pub open spec fn spec_words_acc(s: Seq<u8>, cur: Seq<u8>) -> Seq<Seq<u8>>
    decreases s.len(),
{
    if s.len() == 0 {
        if cur.len() > 0 {
            seq![cur]
        } else {
            Seq::<Seq<u8>>::empty()
        }
    } else if spec_is_space(s[0]) {
        (if cur.len() > 0 {
            seq![cur]
        } else {
            Seq::<Seq<u8>>::empty()
        }) + spec_words_acc(s.skip(1), Seq::<u8>::empty())
    } else {
        spec_words_acc(s.skip(1), cur.push(s[0]))
    }
}

/// The whitespace-separated words of a byte sequence.
pub open spec fn spec_words(s: Seq<u8>) -> Seq<Seq<u8>> {
    spec_words_acc(s, Seq::<u8>::empty())
}

/// Whether the bytes spell a word of the fixed English wordlist. It
/// depends on the bytes alone.
pub uninterp spec fn word_in_list(word: Seq<u8>) -> bool;

/// Relies on tiny-bip39: Language::English.wordmap().get_bits answers
/// exactly for the 2048 words of the fixed English wordlist, a function
/// of the word alone. The list is ASCII, so a byte run that is not
/// UTF-8 spells no word of it.
#[verifier::external_body]
fn is_wordlist_word(word: &[u8]) -> (r: bool)
    ensures
        r == word_in_list(word@),
{
    match core::str::from_utf8(word) {
        Ok(w) => bip39::Language::English.wordmap().get_bits(w).is_some(),
        Err(_) => false,
    }
}

/// A valid seed phrase: exactly 24 words, every one of them in the
/// fixed wordlist.
pub open spec fn spec_phrase_valid(s: Seq<u8>) -> bool {
    let words = spec_words(s);
    words.len() == PHRASE_WORD_COUNT && forall|k: int|
        0 <= k < words.len() ==> word_in_list(#[trigger] words[k])
}

/// Checks a seed phrase: exactly 24 whitespace-separated words, each in
/// the fixed wordlist. The phrase is read left to right, so an unknown
/// word among the first 24 is reported before a wrong count.
pub fn validate_phrase(phrase: &str) -> (r: Result<(), PhraseError>)
    ensures
        ({
            let words = spec_words(phrase.spec_bytes());
            match r {
                Ok(()) => spec_phrase_valid(phrase.spec_bytes()),
                Err(PhraseError::UnknownWord) => exists|k: int|
                    0 <= k < words.len() && k < PHRASE_WORD_COUNT && !word_in_list(
                        #[trigger] words[k],
                    ),
                Err(PhraseError::WrongWordCount) => words.len() != PHRASE_WORD_COUNT && forall|
                    k: int,
                |
                    0 <= k < words.len() && k < PHRASE_WORD_COUNT ==> word_in_list(
                        #[trigger] words[k],
                    ),
            }
        }),
{
    let bytes = phrase.as_bytes();
    let ghost all = bytes@;
    let n = bytes.len();
    let mut count: u64 = 0;
    let mut invalid = false;
    let mut in_word = false;
    let mut start: usize = 0;
    let mut i: usize = 0;
    let ghost mut found: Seq<Seq<u8>> = Seq::<Seq<u8>>::empty();
    proof {
        assert(all.skip(0) =~= all);
        assert(found + spec_words_acc(all.skip(0), Seq::<u8>::empty()) =~= spec_words(all));
    }
    while i < n
        invariant
            n == all.len(),
            all == bytes@,
            i <= n,
            count == found.len(),
            !in_word ==> count <= i,
            in_word ==> count <= start,
            in_word ==> start < i,
            found + spec_words_acc(
                all.skip(i as int),
                if in_word {
                    all.subrange(start as int, i as int)
                } else {
                    Seq::<u8>::empty()
                },
            ) == spec_words(all),
            in_word ==> all.subrange(start as int, i as int).len() > 0,
            invalid == exists|k: int|
                0 <= k < found.len() && k < PHRASE_WORD_COUNT && !word_in_list(
                    #[trigger] found[k],
                ),
        decreases n - i,
    {
        let ghost cur = if in_word {
            all.subrange(start as int, i as int)
        } else {
            Seq::<u8>::empty()
        };
        proof {
            assert(all.skip(i as int)[0] == all[i as int]);
            assert(all.skip(i as int).skip(1) =~= all.skip(i as int + 1));
        }
        let b = bytes[i];
        let is_space = b == 32 || b == 9 || b == 10 || b == 13 || b == 11 || b == 12;
        if is_space {
            if in_word {
                let word = vstd::slice::slice_subrange(bytes, start, i);
                let w_ok = is_wordlist_word(word);
                let ghost inv0 = invalid;
                if count < PHRASE_WORD_COUNT && !w_ok {
                    invalid = true;
                }
                let ghost fprev = found;
                proof {
                    found = found.push(cur);
                    assert(found[found.len() - 1] == cur);
                    assert(forall|k: int| 0 <= k < fprev.len() ==> #[trigger] found[k] == fprev[k]);
                    assert(invalid == exists|k: int|
                        0 <= k < found.len() && k < PHRASE_WORD_COUNT && !word_in_list(
                            #[trigger] found[k],
                        )) by {
                        if invalid {
                            if inv0 {
                                let k0 = choose|k0: int|
                                    0 <= k0 < fprev.len() && k0 < PHRASE_WORD_COUNT
                                        && !word_in_list(#[trigger] fprev[k0]);
                                assert(found[k0] == fprev[k0]);
                            } else {
                                assert(found[fprev.len() as int] == cur);
                                assert(!word_in_list(cur));
                            }
                        } else {
                            assert forall|k: int|
                                0 <= k < found.len() && k < PHRASE_WORD_COUNT implies word_in_list(
                                #[trigger] found[k],
                            ) by {
                                if k < fprev.len() {
                                    assert(found[k] == fprev[k]);
                                }
                            }
                        }
                    }
                }
                count = count + 1;
                in_word = false;
            }
        } else {
            if !in_word {
                start = i;
                in_word = true;
            }
            proof {
                assert(cur.push(all[i as int]) =~= all.subrange(
                    if in_word { start as int } else { i as int },
                    i as int + 1,
                ));
            }
        }
        i = i + 1;
    }
    if in_word {
        let word = vstd::slice::slice_subrange(bytes, start, n);
        let w_ok = is_wordlist_word(word);
        let ghost inv0 = invalid;
        if count < PHRASE_WORD_COUNT && !w_ok {
            invalid = true;
        }
        let ghost fprev = found;
        let ghost cur = all.subrange(start as int, n as int);
        proof {
            found = found.push(cur);
            assert(all.skip(n as int).len() == 0);
            assert(found[found.len() - 1] == cur);
            assert(forall|k: int| 0 <= k < fprev.len() ==> #[trigger] found[k] == fprev[k]);
            assert(invalid == exists|k: int|
                0 <= k < found.len() && k < PHRASE_WORD_COUNT && !word_in_list(
                    #[trigger] found[k],
                )) by {
                if invalid {
                    if inv0 {
                        let k0 = choose|k0: int|
                            0 <= k0 < fprev.len() && k0 < PHRASE_WORD_COUNT && !word_in_list(
                                #[trigger] fprev[k0],
                            );
                        assert(found[k0] == fprev[k0]);
                    } else {
                        assert(found[fprev.len() as int] == cur);
                        assert(!word_in_list(cur));
                    }
                } else {
                    assert forall|k: int|
                        0 <= k < found.len() && k < PHRASE_WORD_COUNT implies word_in_list(
                        #[trigger] found[k],
                    ) by {
                        if k < fprev.len() {
                            assert(found[k] == fprev[k]);
                        }
                    }
                }
            }
        }
        count = count + 1;
    } else {
        proof {
            assert(all.skip(n as int).len() == 0);
        }
    }
    proof {
        assert(found =~= spec_words(all));
        if !invalid {
            assert forall|k: int|
                0 <= k < found.len() && k < PHRASE_WORD_COUNT implies word_in_list(
                #[trigger] found[k],
            ) by {}
        }
    }
    if invalid {
        Err(PhraseError::UnknownWord)
    } else if count != PHRASE_WORD_COUNT {
        Err(PhraseError::WrongWordCount)
    } else {
        Ok(())
    }
}

/// The HMAC-SHA-512 tag over the empty message, keyed with the given
/// bytes. It depends on the key alone.
pub uninterp spec fn hmac_sha512_of(key: Seq<u8>) -> Seq<u8>;

/// The PBKDF2-HMAC-SHA-512 stretch of a password. It depends on the
/// password, the salt, the round count and the requested length alone.
pub uninterp spec fn pbkdf2_sha512_of(password: Seq<u8>, salt: Seq<u8>, rounds: nat, len: nat) -> Seq<u8>;

/// The Ed25519 public key of a 32-byte secret key. It depends on the
/// secret key alone.
pub uninterp spec fn ed25519_public_of(secret: Seq<u8>) -> Seq<u8>;

/// Relies on hmac's Hmac over sha2's Sha512: the tag of the empty
/// message under the given key, 64 bytes, a function of the key alone.
/// HMAC accepts keys of any length.
#[verifier::external_body]
fn hmac_sha512(key: &[u8]) -> (r: Vec<u8>)
    ensures
        r@ == hmac_sha512_of(key@),
        r@.len() == 64,
{
    let mac = <hmac::Hmac<sha2::Sha512> as hmac::KeyInit>::new_from_slice(key).unwrap();
    hmac::Mac::finalize(mac).into_bytes().to_vec()
}

/// Relies on pbkdf2::pbkdf2_hmac with sha2's Sha512: fills the output
/// with the stretched password, a function of password, salt, round
/// count and output length alone.
#[verifier::external_body]
fn pbkdf2_sha512(password: &[u8], salt: &[u8], rounds: u32, out_len: usize) -> (r: Vec<u8>)
    requires
        rounds >= 1,
        out_len <= 1024,
    ensures
        r@ == pbkdf2_sha512_of(password@, salt@, rounds as nat, out_len as nat),
        r@.len() == out_len,
{
    let mut res = vec![0u8; out_len];
    pbkdf2::pbkdf2_hmac::<sha2::Sha512>(password, salt, rounds, &mut res);
    res
}

/// Relies on ed25519-dalek's SigningKey::from_bytes and
/// verifying_key: the public key derived from a 32-byte secret key, a
/// function of the secret key alone.
#[verifier::external_body]
fn ed25519_public_key(secret: &[u8; 32]) -> (r: [u8; 32])
    ensures
        r@ == ed25519_public_of(secret@),
{
    ed25519_dalek::SigningKey::from_bytes(secret).verifying_key().to_bytes()
}

/// An Ed25519 key pair as plain bytes.
#[derive(Clone, Copy, Debug, PartialEq, Eq)]
pub struct KeyPair {
    pub secret: [u8; 32],
    pub public: [u8; 32],
}

/// The salt of the seed derivation: the bytes of "TON default seed".
pub open spec fn spec_derivation_salt() -> Seq<u8> {
    seq![
        84u8,
        79u8,
        78u8,
        32u8,
        100u8,
        101u8,
        102u8,
        97u8,
        117u8,
        108u8,
        116u8,
        32u8,
        115u8,
        101u8,
        101u8,
        100u8,
    ]
}

/// Builds the derivation salt, the bytes of "TON default seed".
fn derivation_salt() -> (r: Vec<u8>)
    ensures
        r@ == spec_derivation_salt(),
{
    let mut v: Vec<u8> = Vec::new();
    v.push(84);
    v.push(79);
    v.push(78);
    v.push(32);
    v.push(100);
    v.push(101);
    v.push(102);
    v.push(97);
    v.push(117);
    v.push(108);
    v.push(116);
    v.push(32);
    v.push(115);
    v.push(101);
    v.push(101);
    v.push(100);
    proof {
        assert(v@ =~= spec_derivation_salt());
    }
    v
}

/// The seed that a phrase stretches to: the phrase keys an
/// HMAC-SHA-512 over the empty message, and the tag is stretched with
/// PBKDF2 over the fixed salt to 64 bytes.
pub open spec fn spec_derived_seed(phrase: Seq<u8>) -> Seq<u8> {
    pbkdf2_sha512_of(
        hmac_sha512_of(phrase),
        spec_derivation_salt(),
        PBKDF_ITERATIONS as nat,
        64,
    )
}

/// Derives an Ed25519 key pair from a 24-word seed phrase: the secret
/// key is the first 32 bytes of the stretched seed, the public key is
/// derived from it. A phrase of the wrong shape is rejected.
pub fn derive_from_phrase(phrase: &str) -> (r: Result<KeyPair, PhraseError>)
    ensures
        match r {
            Ok(kp) => {
                &&& spec_phrase_valid(phrase.spec_bytes())
                &&& kp.secret@ == spec_derived_seed(phrase.spec_bytes()).take(32)
                &&& kp.public@ == ed25519_public_of(kp.secret@)
            },
            Err(_) => !spec_phrase_valid(phrase.spec_bytes()),
        },
{
    match validate_phrase(phrase) {
        Ok(()) => {},
        Err(e) => {
            return Err(e);
        },
    }
    let password = hmac_sha512(phrase.as_bytes());
    let salt = derivation_salt();
    let seed = pbkdf2_sha512(password.as_slice(), salt.as_slice(), PBKDF_ITERATIONS, 64);
    let mut secret = [0u8; 32];
    let mut i: usize = 0;
    while i < 32
        invariant
            i <= 32,
            seed@.len() == 64,
            secret@.len() == 32,
            forall|x: int| 0 <= x < i ==> secret@[x] == seed@[x],
        decreases 32 - i,
    {
        secret[i] = seed[i];
        i = i + 1;
    }
    proof {
        assert(secret@ =~= spec_derived_seed(phrase.spec_bytes()).take(32));
    }
    let public = ed25519_public_key(&secret);
    Ok(KeyPair { secret, public })
}

} // verus!
