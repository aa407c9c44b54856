//! Byte-exact anchors: a declaration located by the comment/string-aware
//! scanner, hashed and reversibly encoded, with its one-based line range.
use vstd::prelude::*;

use crate::digests::{b64_decode, b64_encode, b64_of, hex256, sha256_of, spec_hex};
use crate::lex::{find_balanced_block, spec_count_nl, spec_line_of, ScanError};
use crate::text::{copy_bytes, eq_bytes, sub_vec};

verus! {

/// A verified slice of source: kind and name of the declaration, its
/// one-based inclusive line range, the digest of the verbatim bytes, and the
/// bytes themselves in a reversible encoding.
#[derive(Clone, Debug)]
pub struct Anchor {
    pub kind: Vec<u8>,
    pub name: Vec<u8>,
    pub visibility: Vec<u8>,
    pub start_line: usize,
    pub end_line: usize,
    pub slice_sha256: Vec<u8>,
    pub verbatim_b64: Vec<u8>,
}

/// The anchor records exactly some slice of `src`.
pub open spec fn spec_is_anchor(a: Anchor, src: Seq<u8>) -> bool {
    exists|start: int, end: int| spec_anchor_of(a, src, start, end)
}

/// The anchor records exactly the slice `src[start..end]`.
pub open spec fn spec_anchor_of(a: Anchor, src: Seq<u8>, start: int, end: int) -> bool {
    &&& 0 <= start <= end <= src.len()
    &&& a.start_line == spec_line_of(src, start)
    &&& a.end_line == spec_line_of(src, end)
    &&& a.slice_sha256@ == spec_hex(sha256_of(src.subrange(start, end)))
    &&& a.verbatim_b64@ == b64_of(src.subrange(start, end))
}

/// Locate `kw` + `ident` by the lexical scanner and build its anchor.
///
/// The slice runs from the keyword occurrence the scanner finds through the
/// matching closing brace; its digest and encoding are taken over exactly
/// those bytes, and the line range counts newlines strictly before each end.
/// Success is owed exactly when the declaration is found in code context and
/// its body closes before the input ends.
pub fn anchor_from_source(
    src: &[u8],
    kw: &[u8],
    ident: &[u8],
    kind: &[u8],
    visibility: &[u8],
) -> (r: Result<Anchor, ScanError>)
    requires
        kw@.len() > 0,
        src@.len() < usize::MAX,
    ensures
        ({
            let p = crate::lex::spec_find_decl(src@, 0, crate::lex::spec_init_lex(), kw@, ident@);
            let ob = crate::lex::spec_body_open(
                src@,
                crate::lex::spec_ident_end(
                    src@,
                    crate::lex::spec_skip_trivia(src@, p + kw@.len()),
                ),
            );
            let close = crate::lex::spec_scan_close(src@, ob, crate::lex::spec_init_lex());
            &&& (r is Ok <==> p >= 0 && ob >= 0 && close is Some)
            &&& (r is Ok ==> spec_anchor_of(r->Ok_0, src@, p, close->Some_0))
            &&& (r is Ok ==> spec_is_anchor(r->Ok_0, src@))
            &&& (r is Ok ==> r->Ok_0.name@ == ident@ && r->Ok_0.kind@ == kind@
                && r->Ok_0.visibility@ == visibility@)
        }),
{
    match find_balanced_block(src, kw, ident) {
        Ok((start, end)) => {
            let slice = sub_vec(src, start, end);
            let start_line = crate::lex::count_nl_before(src, start) + 1;
            let end_line = crate::lex::count_nl_before(src, end) + 1;
            let a = Anchor {
                kind: copy_bytes(kind),
                name: copy_bytes(ident),
                visibility: copy_bytes(visibility),
                start_line,
                end_line,
                slice_sha256: hex256(slice.as_slice()),
                verbatim_b64: b64_encode(slice.as_slice()),
            };
            proof {
                assert(spec_anchor_of(a, src@, start as int, end as int));
                assert(spec_is_anchor(a, src@));
            }
            Ok(a)
        },
        Err(e) => Err(e),
    }
}

/// Decode an anchor's verbatim bytes and confirm they re-hash to the recorded
/// digest; always true of an anchor built over some slice of `src`.
pub fn anchor_roundtrip(a: &Anchor, ghost_src: Ghost<Seq<u8>>) -> (r: bool)
    requires
        spec_is_anchor(*a, ghost_src@),
    ensures
        r,
{
    let ghost (start, end) = choose|start: int, end: int|
        spec_anchor_of(*a, ghost_src@, start, end);
    match b64_decode(a.verbatim_b64.as_slice()) {
        Ok(decoded) => {
            proof {
                assert(a.verbatim_b64@ == b64_of(ghost_src@.subrange(start, end)));
                assert(decoded@ == ghost_src@.subrange(start, end));
            }
            let rehashed = hex256(decoded.as_slice());
            eq_bytes(rehashed.as_slice(), a.slice_sha256.as_slice())
        },
        Err(_) => {
            proof {
                assert(a.verbatim_b64@ == b64_of(ghost_src@.subrange(start, end)));
                assert(false);
            }
            false
        },
    }
}

} // verus!
