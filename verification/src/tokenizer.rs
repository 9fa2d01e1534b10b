//! The tokenizer adapter: a thin trusted boundary around the tokenizer
//! artifact. What comes back from encode/decode depends on the artifact
//! loaded from disk, so nothing is promised of the values; everything that
//! consumes them (the forward pass, the generation loop) is verified for
//! every possible outcome.

use vstd::prelude::*;

verus! {

/// The outside tokenizer type, declared so it can sit in the model handle.
#[verifier::external_type_specification]
#[verifier::external_body]
pub struct ExTokenizer(tokenizers::Tokenizer);

/// Relies on tokenizers' TokenizerImpl::encode (with special tokens added):
/// the token ids of a text, or the tokenizer's failure text. The ids depend
/// on the artifact the tokenizer was built from, so nothing is promised of
/// them; the forward pass validates every id against the vocabulary.
#[verifier::external_body]
pub fn tok_encode(t: &tokenizers::Tokenizer, text: &String) -> Result<Vec<u32>, String> {
    match t.encode(text.as_str(), true) {
        Ok(enc) => Ok(enc.get_ids().to_vec()),
        Err(e) => Err(e.to_string()),
    }
}

/// Relies on tokenizers' TokenizerImpl::decode (skipping special tokens):
/// the text of a sequence of token ids, or the tokenizer's failure text.
#[verifier::external_body]
pub fn tok_decode(t: &tokenizers::Tokenizer, ids: &Vec<u32>) -> Result<String, String> {
    match t.decode(ids.as_slice(), true) {
        Ok(s) => Ok(s),
        Err(e) => Err(e.to_string()),
    }
}

/// Relies on the tokenizer's derived Clone implementation.
pub assume_specification[ <tokenizers::Tokenizer as Clone>::clone ](
    t: &tokenizers::Tokenizer,
) -> tokenizers::Tokenizer;

} // verus!
