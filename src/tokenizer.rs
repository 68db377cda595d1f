//! The shared BPE encoder that counts the tokens of generated text.

use vstd::prelude::*;
use crate::text::{chars_of, string_of};

verus! {

/// tiktoken-rs's BPE encoder, carried through opaquely.
#[verifier::external_type_specification]
#[verifier::external_body]
pub struct ExCoreBPE(tiktoken_rs::CoreBPE);

/// The number of tokens that the cl100k_base encoding gives a text, special
/// tokens included.
pub uninterp spec fn cl100k_token_count(text: Seq<char>) -> u64;

/// The cl100k_base encoder, built once and shared by all requests.
pub struct Tokenizer {
    bpe: tiktoken_rs::CoreBPE,
}

/// Relies on `tiktoken_rs::cl100k_base`: builds the cl100k_base encoder from the
/// tables shipped with the crate; `None` where building fails.
#[verifier::external_body]
fn load_cl100k() -> (r: Option<tiktoken_rs::CoreBPE>) {
    tiktoken_rs::cl100k_base().ok()
}

/// The longest text handed to the encoder in one piece. The encoder unwraps the
/// results of fancy-regex, which fails a search after 1,000,000 backtracks or
/// 1,000,000 stack entries. The cl100k_base pattern has no nested repetition, so
/// a search of a text of this many characters (at most 1024 bytes) stays far
/// below both limits.
pub const MAX_ENCODE_CHARS: usize = 256;

/// Relies on `CoreBPE::encode_with_special_tokens`: the tokens of `text`, of which
/// only the number is kept. The encoder is the cl100k_base one, the only one a
/// `Tokenizer` is built from; an empty text has no tokens. Texts are bounded so
/// that the encoder's pattern engine does not give up (see `MAX_ENCODE_CHARS`).
#[verifier::external_body]
fn encoded_len(bpe: &tiktoken_rs::CoreBPE, text: &str) -> (r: u64)
    requires
        text@.len() <= MAX_ENCODE_CHARS,
    ensures
        r == cl100k_token_count(text@),
        text@.len() == 0 ==> r == 0,
{
    bpe.encode_with_special_tokens(text).len() as u64
}

impl Tokenizer {
    /// The cl100k_base encoder, or `None` where its tables cannot be loaded.
    pub fn cl100k() -> (r: Option<Tokenizer>) {
        match load_cl100k() {
            Some(bpe) => Some(Tokenizer { bpe }),
            None => None,
        }
    }

    /// The number of tokens of a text of at most `MAX_ENCODE_CHARS` characters.
    pub fn count_tokens(&self, text: &str) -> (r: u64)
        requires
            text@.len() <= MAX_ENCODE_CHARS,
        ensures
            r == cl100k_token_count(text@),
            text@.len() == 0 ==> r == 0,
    {
        encoded_len(&self.bpe, text)
    }

    /// The number of tokens of a delta of any length: counted in pieces of
    /// `MAX_ENCODE_CHARS` characters (see `delta_tokens`).
    pub fn count_delta_tokens(&self, text: &str) -> (r: u64)
        ensures
            r == delta_tokens(text@),
    {
        let v = chars_of(text);
        let n = v.len();
        let mut start: usize = 0;
        let mut acc: u64 = 0;
        assert(v@.subrange(0, n as int) =~= v@);
        while n - start > MAX_ENCODE_CHARS
            invariant
                start <= n == v@.len(),
                v@ == text@,
                delta_tokens(v@) == sat_add(acc, delta_tokens(v@.subrange(start as int, n as int))),
            decreases n - start,
        {
            let ghost rest = v@.subrange(start as int, n as int);
            let mut piece: Vec<char> = Vec::new();
            let mut k: usize = start;
            while k < start + MAX_ENCODE_CHARS
                invariant
                    start <= k <= start + MAX_ENCODE_CHARS <= n == v@.len(),
                    piece@ == v@.subrange(start as int, k as int),
                decreases start + MAX_ENCODE_CHARS - k,
            {
                piece.push(v[k]);
                k = k + 1;
                assert(piece@ =~= v@.subrange(start as int, k as int));
            }
            let p = string_of(&piece);
            let c = encoded_len(&self.bpe, p.as_str());
            proof {
                assert(rest.subrange(0, MAX_ENCODE_CHARS as int) =~= piece@);
                assert(rest.subrange(MAX_ENCODE_CHARS as int, rest.len() as int) =~= v@.subrange(
                    start + MAX_ENCODE_CHARS,
                    n as int,
                ));
                lemma_sat_add_assoc(acc, c, delta_tokens(v@.subrange(start + MAX_ENCODE_CHARS, n as int)));
            }
            acc = if c > u64::MAX - acc {
                u64::MAX
            } else {
                acc + c
            };
            start = start + MAX_ENCODE_CHARS;
        }
        let mut last: Vec<char> = Vec::new();
        let mut k: usize = start;
        while k < n
            invariant
                start <= k <= n == v@.len(),
                last@ == v@.subrange(start as int, k as int),
            decreases n - k,
        {
            last.push(v[k]);
            k = k + 1;
            assert(last@ =~= v@.subrange(start as int, k as int));
        }
        let p = string_of(&last);
        let c = encoded_len(&self.bpe, p.as_str());
        if c > u64::MAX - acc {
            u64::MAX
        } else {
            acc + c
        }
    }
}

/// `a + b`, held at the largest `u64`.
pub open spec fn sat_add(a: u64, b: u64) -> u64 {
    if a + b > u64::MAX {
        u64::MAX
    } else {
        (a + b) as u64
    }
}

proof fn lemma_sat_add_assoc(a: u64, b: u64, c: u64)
    ensures
        sat_add(sat_add(a, b), c) == sat_add(a, sat_add(b, c)),
{
}

/// The tokens of a delta: a text of up to `MAX_ENCODE_CHARS` characters is
/// encoded whole; a longer one piece by piece, from the front, the counts added
/// (held at the largest `u64`).
pub open spec fn delta_tokens(t: Seq<char>) -> u64
    decreases t.len(),
{
    if t.len() <= MAX_ENCODE_CHARS {
        cl100k_token_count(t)
    } else {
        sat_add(
            cl100k_token_count(t.subrange(0, MAX_ENCODE_CHARS as int)),
            delta_tokens(t.subrange(MAX_ENCODE_CHARS as int, t.len() as int)),
        )
    }
}

} // verus!
