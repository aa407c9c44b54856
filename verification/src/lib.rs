//! Content-addressed source-tree indexer: scanning, snippet extraction,
//! token-bounded chunk packing, snapshot diffing with rename detection, and a
//! verifiable pack of byte-exact declaration anchors with Merkle chunk tables.
use vstd::prelude::*;

pub mod chunker;
pub mod diff;
pub mod digests;
pub mod laws;
pub mod lex;
pub mod pack;
pub mod merkle;
pub mod helpers;
pub mod intent;
pub mod record;
pub mod snippet;
pub mod util;
pub mod text;

verus! {

/// Estimate of tokens in a text: one token per four bytes, with a fixed floor.
pub fn estimate_tokens_fallback(s: &[u8]) -> (r: usize)
    ensures
        r == spec_tokens_floor(s@),
        r >= 12,
{
    let n = s.len() / 4;
    if n < 12 {
        12
    } else {
        n
    }
}

/// One token per four bytes, never below twelve.
pub open spec fn spec_tokens_floor(s: Seq<u8>) -> usize {
    if s.len() / 4 < 12 {
        12usize
    } else {
        (s.len() / 4) as usize
    }
}

} // verus!
