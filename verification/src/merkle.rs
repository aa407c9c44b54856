//! Fixed-size content chunking and the Merkle root over the chunk digests.
//!
//! A file is split into consecutive chunks of a fixed byte size (the last one
//! may be shorter); each chunk is hashed on its own, and the root is built by
//! hashing concatenated pairs level by level, carrying an odd digest forward
//! unhashed. An empty file has the digest of empty input as its root.
use vstd::prelude::*;

use crate::digests::{hex256, sha256_bytes, sha256_of, spec_hex, to_hex};

verus! {

/// Chunk size used by the pack builder: 16 KiB.
pub const CHUNK: usize = 16 * 1024;

/// One fixed-size content chunk: its index, byte range, and hex digest.
#[derive(Clone, Debug)]
pub struct Chunk {
    pub index: usize,
    pub offset: usize,
    pub length: usize,
    pub sha256: Vec<u8>,
}

/// The SHA-256 digests of the consecutive chunks of `s` from `off` on.
pub open spec fn spec_chunk_hashes(s: Seq<u8>, off: int, csize: int) -> Seq<Seq<u8>>
    decreases s.len() - off,
{
    if off < 0 || off >= s.len() || csize <= 0 {
        Seq::empty()
    } else {
        let end = if off + csize < s.len() {
            off + csize
        } else {
            s.len() as int
        };
        seq![sha256_of(s.subrange(off, end))] + spec_chunk_hashes(s, end, csize)
    }
}

/// One level of the Merkle tree: adjacent digests are concatenated and
/// hashed; an odd digest at the end moves up unchanged.
pub open spec fn spec_merkle_level(hs: Seq<Seq<u8>>) -> Seq<Seq<u8>>
    decreases hs.len(),
{
    if hs.len() == 0 {
        Seq::empty()
    } else if hs.len() == 1 {
        seq![hs[0]]
    } else {
        seq![sha256_of(hs[0] + hs[1])] + spec_merkle_level(hs.skip(2))
    }
}

pub proof fn lemma_merkle_level_len(hs: Seq<Seq<u8>>)
    ensures
        hs.len() == 0 ==> spec_merkle_level(hs).len() == 0,
        hs.len() > 0 ==> spec_merkle_level(hs).len() == (hs.len() + 1) / 2,
        hs.len() >= 2 ==> spec_merkle_level(hs).len() < hs.len(),
    decreases hs.len(),
{
    if hs.len() >= 2 {
        lemma_merkle_level_len(hs.skip(2));
    }
}

/// The Merkle root of a digest list: fold levels until one digest remains;
/// the root of no digests is the digest of empty input.
pub open spec fn spec_merkle_root(hs: Seq<Seq<u8>>) -> Seq<u8>
    decreases hs.len(),
    via spec_merkle_root_dec
{
    if hs.len() == 0 {
        sha256_of(Seq::empty())
    } else if hs.len() == 1 {
        hs[0]
    } else {
        spec_merkle_root(spec_merkle_level(hs))
    }
}

#[via_fn]
proof fn spec_merkle_root_dec(hs: Seq<Seq<u8>>) {
    if hs.len() >= 2 {
        lemma_merkle_level_len(hs);
    }
}

/// The chunk-digest list of a whole byte string at the fixed chunk size.
pub open spec fn spec_file_chunk_hashes(s: Seq<u8>) -> Seq<Seq<u8>> {
    spec_chunk_hashes(s, 0, CHUNK as int)
}

/// Split `bytes` into fixed-size chunks with hex digests, and compute the
/// hex Merkle root over the chunk digests.
pub fn chunk_and_merkle(bytes: &[u8]) -> (r: (Vec<Chunk>, Vec<u8>))
    ensures
        r.1@ == spec_hex(spec_merkle_root(spec_file_chunk_hashes(bytes@))),
        r.0@.len() == spec_file_chunk_hashes(bytes@).len(),
        forall|i: int|
            0 <= i < r.0@.len() ==> {
                &&& (#[trigger] r.0@[i]).index == i
                &&& r.0@[i].offset == i * (CHUNK as int)
                &&& r.0@[i].length == (if i * (CHUNK as int) + (CHUNK as int) <= bytes@.len() {
                    CHUNK as int
                } else {
                    bytes@.len() - i * (CHUNK as int)
                })
                &&& r.0@[i].offset + r.0@[i].length <= bytes@.len()
                &&& r.0@[i].sha256@ == spec_hex(spec_file_chunk_hashes(bytes@)[i])
            },
{
    let ghost all = spec_file_chunk_hashes(bytes@);
    let mut list: Vec<Chunk> = Vec::new();
    let mut digests: Vec<Vec<u8>> = Vec::new();
    let mut off: usize = 0;
    let mut i: usize = 0;
    while off < bytes.len()
        invariant
            off <= bytes@.len(),
            off == i * (CHUNK as int) || off == bytes@.len(),
            list@.len() == i,
            digests@.len() == i,
            digests.deep_view() + spec_chunk_hashes(bytes@, off as int, CHUNK as int) == all,
            forall|k: int|
                0 <= k < i ==> {
                    &&& (#[trigger] list@[k]).index == k
                    &&& list@[k].offset == k * (CHUNK as int)
                    &&& list@[k].length == (if k * (CHUNK as int) + (CHUNK as int) <= bytes@.len() {
                        CHUNK as int
                    } else {
                        bytes@.len() - k * (CHUNK as int)
                    })
                    &&& list@[k].offset + list@[k].length <= bytes@.len()
                    &&& list@[k].sha256@ == spec_hex(digests.deep_view()[k])
                },
        decreases bytes@.len() - off,
    {
        proof {
            if off != i * (CHUNK as int) {
                assert(false);
            }
        }
        let end = if bytes.len() - off > CHUNK {
            off + CHUNK
        } else {
            bytes.len()
        };
        proof {
            assert(end as int == if off + CHUNK < bytes@.len() {
                off + CHUNK
            } else {
                bytes@.len() as int
            } || (end == off + CHUNK && off + CHUNK == bytes@.len()));
        }
        let slice = crate::text::sub_vec(bytes, off, end);
        let d = sha256_bytes(slice.as_slice());
        let hexd = to_hex(d.as_slice());
        let ghost dv = d@;
        let ghost prev = digests.deep_view();
        list.push(Chunk { index: i, offset: off, length: end - off, sha256: hexd });
        digests.push(d);
        proof {
            assert(digests.deep_view() =~~= prev + seq![dv]);
            assert(spec_chunk_hashes(bytes@, off as int, CHUNK as int) == seq![
                sha256_of(bytes@.subrange(off as int, end as int)),
            ] + spec_chunk_hashes(bytes@, end as int, CHUNK as int));
            assert(digests.deep_view() + spec_chunk_hashes(bytes@, end as int, CHUNK as int)
                =~= all);
            assert((i + 1) * (CHUNK as int) == i * (CHUNK as int) + CHUNK) by (nonlinear_arith);
        }
        off = end;
        i = i + 1;
    }
    proof {
        assert(spec_chunk_hashes(bytes@, off as int, CHUNK as int) =~= Seq::<Seq<u8>>::empty());
        assert(digests.deep_view() =~= all);
    }
    let root = merkle_root_hex(digests);
    (list, root)
}

/// Fold a digest list to its Merkle root and encode it as hex.
fn merkle_root_hex(digests: Vec<Vec<u8>>) -> (r: Vec<u8>)
    ensures
        r@ == spec_hex(spec_merkle_root(digests.deep_view())),
{
    let ghost orig = digests.deep_view();
    let mut layer = digests;
    while layer.len() > 1
        invariant
            spec_merkle_root(layer.deep_view()) == spec_merkle_root(orig),
        decreases layer@.len(),
    {
        let ghost lv = layer.deep_view();
        proof {
            lemma_merkle_level_len(lv);
        }
        let mut next: Vec<Vec<u8>> = Vec::new();
        let mut j: usize = 0;
        proof {
            assert(lv.skip(0) =~= lv);
            assert(next.deep_view() =~= Seq::<Seq<u8>>::empty());
            assert(next.deep_view() + spec_merkle_level(lv) =~= spec_merkle_level(lv));
        }
        while j < layer.len()
            invariant
                layer@.len() >= 2,
                lv == layer.deep_view(),
                lv.len() == layer@.len(),
                j <= layer@.len(),
                j % 2 == 0 || j == layer@.len(),
                next.deep_view() + spec_merkle_level(lv.skip(j as int)) == spec_merkle_level(lv),
            decreases layer@.len() - j,
        {
            let ghost prev = next.deep_view();
            if j + 1 < layer.len() {
                let mut combined: Vec<u8> = Vec::new();
                crate::text::push_all(&mut combined, layer[j].as_slice());
                crate::text::push_all(&mut combined, layer[j + 1].as_slice());
                proof {
                    assert(lv[j as int] == layer@[j as int]@);
                    assert(lv[j + 1] == layer@[j + 1]@);
                    assert(combined@ == lv[j as int] + lv[j + 1]);
                }
                let d = sha256_bytes(combined.as_slice());
                let ghost dv = d@;
                next.push(d);
                proof {
                    assert(next.deep_view() =~~= prev + seq![dv]);
                    let rest = lv.skip(j as int);
                    assert(rest[0] == lv[j as int] && rest[1] == lv[j + 1]);
                    assert(rest.skip(2) =~= lv.skip(j + 2));
                    assert(spec_merkle_level(rest) == seq![sha256_of(rest[0] + rest[1])]
                        + spec_merkle_level(lv.skip(j + 2)));
                    assert(next.deep_view() + spec_merkle_level(lv.skip(j + 2)) =~= spec_merkle_level(
                        lv,
                    ));
                }
                j = j + 2;
            } else {
                let d = crate::text::sub_vec(layer[j].as_slice(), 0, layer[j].len());
                let ghost dv = d@;
                proof {
                    assert(lv[j as int] == layer@[j as int]@);
                    assert(dv =~= lv[j as int]);
                }
                next.push(d);
                proof {
                    assert(next.deep_view() =~~= prev + seq![dv]);
                    let rest = lv.skip(j as int);
                    assert(rest.len() == 1 && rest[0] == lv[j as int]);
                    assert(spec_merkle_level(rest) == seq![rest[0]]);
                    assert(lv.skip(j + 1) =~= Seq::<Seq<u8>>::empty());
                    assert(next.deep_view() + spec_merkle_level(lv.skip(j + 1)) =~= spec_merkle_level(
                        lv,
                    ));
                }
                j = j + 1;
            }
        }
        proof {
            assert(lv.skip(lv.len() as int) =~= Seq::<Seq<u8>>::empty());
            assert(next.deep_view() =~= spec_merkle_level(lv));
            assert(spec_merkle_root(spec_merkle_level(lv)) == spec_merkle_root(lv));
        }
        layer = next;
    }
    if layer.len() == 0 {
        proof {
            assert(layer.deep_view() =~= Seq::<Seq<u8>>::empty());
        }
        let empty: Vec<u8> = Vec::new();
        hex256(empty.as_slice())
    } else {
        proof {
            assert(layer.deep_view()[0] == layer@[0]@);
            assert(spec_merkle_root(layer.deep_view()) == layer.deep_view()[0]);
        }
        to_hex(layer[0].as_slice())
    }
}

} // verus!
