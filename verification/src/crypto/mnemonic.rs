//! The 24-word phrase of an identity seed.
//!
//! A seed of 32 bytes and its BIP39 English phrase are the same secret in two forms: the phrase
//! restores the seed, and with it the whole identity.
use crate::bytes;
use crate::error::{ErrorView, HuddleError};
use crate::text;
use bip39::{Language, Mnemonic};
use vstd::prelude::*;

verus! {

/// The BIP39 English phrase of 32 bytes of entropy.
pub uninterp spec fn bip39_phrase(entropy: Seq<u8>) -> Seq<char>;

/// The entropy that a BIP39 English phrase writes, or what is said of a text that is no phrase.
pub uninterp spec fn bip39_entropy(phrase: Seq<char>) -> Result<Seq<u8>, Seq<char>>;

/// A text of lower-case letters and spaces that begins and ends with a letter.
pub open spec fn is_word_list(s: Seq<char>) -> bool {
    &&& s.len() > 0
    &&& 'a' <= s[0] && s[0] <= 'z'
    &&& 'a' <= s.last() && s.last() <= 'z'
    &&& forall|i: int| 0 <= i < s.len() ==> #[trigger] s[i] == ' ' || ('a' <= s[i] && s[i] <= 'z')
}

/// `bip39::Mnemonic::from_entropy` and its text. 32 bytes are an entropy that BIP39 takes; the
/// phrase is a list of words in lower-case letters, and parsing it gives the entropy back.
#[verifier::external_body]
fn phrase_of(entropy: &[u8; 32]) -> (r: String)
    ensures
        r@ == bip39_phrase(entropy@),
        is_word_list(r@),
        bip39_entropy(r@) == crate::crypto::primitives::read(entropy@),
{
    Mnemonic::from_entropy(entropy).expect("256 bits of entropy").to_string()
}

/// `bip39::Mnemonic::parse_in` for English and `to_entropy_array`, an error as its message.
#[verifier::external_body]
fn entropy_of(phrase: &str) -> (r: Result<Vec<u8>, String>)
    ensures
        match r {
            Ok(b) => bip39_entropy(phrase@) == crate::crypto::primitives::read(b@),
            Err(words) => bip39_entropy(phrase@) == crate::crypto::primitives::unread(words@),
        },
{
    let mnemonic = Mnemonic::parse_in(Language::English, phrase).map_err(|e| e.to_string())?;
    let (entropy, len) = mnemonic.to_entropy_array();
    Ok(entropy[..len].to_vec())
}

/// The text that is looked up: without white space at either end, in lower case.
pub open spec fn normalized(phrase: Seq<char>) -> Seq<char> {
    text::lowercase(text::trimmed(phrase))
}

/// The seed that a phrase stands for, or why it stands for none.
pub open spec fn seed_of(phrase: Seq<char>) -> Result<Seq<u8>, ErrorView> {
    match bip39_entropy(normalized(phrase)) {
        Err(words) => Err(ErrorView::Identity("invalid seed phrase: "@ + words)),
        Ok(entropy) => if entropy.len() != 32 {
            Err(
                ErrorView::Identity(
                    "seed phrase decodes to "@ + text::decimal(entropy.len())
                        + " bytes; expected a 24-word (32-byte) phrase"@,
                ),
            )
        } else {
            Ok(entropy)
        },
    }
}

/// The phrase of a seed. The phrase stands for the seed again.
pub fn seed_to_phrase(seed: &[u8; 32]) -> (r: String)
    ensures
        r@ == bip39_phrase(seed@),
        seed_of(r@) == Ok::<Seq<u8>, ErrorView>(seed@),
{
    let phrase: String = phrase_of(seed);
    proof {
        lemma_word_list_is_normal(phrase@);
    }
    phrase
}

proof fn lemma_word_list_is_normal(s: Seq<char>)
    requires
        is_word_list(s),
    ensures
        normalized(s) == s,
{
    text::lemma_trim_nothing(s, text::CharClass::Whitespace);
    assert(text::lower_all(s) =~= s);
}

/// The seed of a phrase. White space at either end and the case of ASCII letters do not matter.
pub fn phrase_to_seed(phrase: &str) -> (r: Result<[u8; 32], HuddleError>)
    ensures
        crate::error::result_view(r) == seed_of(phrase@),
{
    let chars: Vec<char> = text::chars_of(phrase);
    let trimmed: String = text::string_of(
        text::trim(chars.as_slice(), text::CharClass::Whitespace),
    );
    let lowered: String = text::to_lowercase(trimmed.as_str());
    match entropy_of(lowered.as_str()) {
        Err(words) => Err(
            HuddleError::Identity(text::join2("invalid seed phrase: ", words.as_str())),
        ),
        Ok(entropy) => {
            if entropy.len() != 32 {
                let n: String = text::decimal_of(entropy.len() as u64);
                return Err(
                    HuddleError::Identity(
                        text::join3(
                            "seed phrase decodes to ",
                            n.as_str(),
                            " bytes; expected a 24-word (32-byte) phrase",
                        ),
                    ),
                );
            }
            Ok(bytes::array_32(entropy.as_slice()))
        },
    }
}

/// The phrase of a seed, with other letter case and with white space around it, still stands for
/// the seed: two ASCII texts that differ only so stand for the same.
pub proof fn law_phrase_ignores_case_and_padding(p: Seq<char>, q: Seq<char>)
    requires
        text::all_ascii(text::trimmed(p)),
        text::all_ascii(text::trimmed(q)),
        text::lower_all(text::trimmed(p)) == text::lower_all(text::trimmed(q)),
    ensures
        seed_of(p) == seed_of(q),
{
}

} // verus!
