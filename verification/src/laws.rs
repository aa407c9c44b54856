//! The library's cross-cutting guarantees, stated and proved over the spec
//! model: the chunk token budget, the one-to-one rename bound, and the
//! determinism of hashing, packing, and scanning primitives.
use vstd::prelude::*;

use crate::chunker::{spec_pack, spec_part_tokens, spec_tok_sum, Part};
use crate::diff::{
    spec_cnt_gained, spec_cnt_lost, spec_pair_witness, spec_pairs_witnessed, spec_rename_sha,
    RenamePair,
};
use crate::record::FileIntentEntry;
use crate::digests::{sha1_of, sha256_of};
use crate::merkle::{spec_file_chunk_hashes, spec_merkle_root};

verus! {

/// Every chunk stays within the budget unless it is a single oversized part.
pub open spec fn spec_budget_ok(chunks: Seq<Seq<Part>>, cap: int) -> bool {
    forall|c: int|
        0 <= c < chunks.len() ==> (spec_tok_sum(#[trigger] chunks[c]) <= cap || chunks[c].len()
            == 1)
}

/// Chunk budget law: in every chunk the packer emits, either the token
/// weights sum to at most the budget, or the chunk holds a single part that
/// alone exceeds it. A part is never subdivided by the packer.
pub proof fn lemma_pack_budget(parts: Seq<Part>, i: int, cur: Seq<Part>, cap: int, maxf: int)
    requires
        spec_tok_sum(cur) <= cap || cur.len() <= 1,
    ensures
        spec_budget_ok(spec_pack(parts, i, cur, cap, maxf), cap),
    decreases parts.len() - i,
{
    if i < 0 || i >= parts.len() {
        if cur.len() > 0 {
            let out = spec_pack(parts, i, cur, cap, maxf);
            assert(out == seq![cur]);
            assert forall|c: int|
                0 <= c < out.len() implies (spec_tok_sum(#[trigger] out[c]) <= cap || out[c].len()
                == 1) by {
                assert(out[c] == cur);
            }
        }
    } else {
        let pt = spec_part_tokens(parts[i]);
        let new_file = cur.len() == 0 || cur[cur.len() - 1].path@ != parts[i].path@;
        let overflow = spec_tok_sum(cur) + pt > cap;
        let toomany = new_file && crate::chunker::spec_file_runs(cur) >= maxf;
        if cur.len() > 0 && (overflow || toomany) {
            lemma_pack_budget(parts, i + 1, seq![parts[i]], cap, maxf);
            lemma_tok_sum_singleton(parts[i]);
            let rec = spec_pack(parts, i + 1, seq![parts[i]], cap, maxf);
            let out = spec_pack(parts, i, cur, cap, maxf);
            assert(out == seq![cur] + rec);
            assert forall|c: int|
                0 <= c < out.len() implies (spec_tok_sum(#[trigger] out[c]) <= cap || out[c].len()
                == 1) by {
                if c == 0 {
                    assert(out[0] == cur);
                } else {
                    assert(out[c] == rec[c - 1]);
                    assert(spec_tok_sum(rec[c - 1]) <= cap || rec[c - 1].len() == 1);
                }
            }
        } else {
            lemma_tok_sum_push(cur, parts[i]);
            lemma_pack_budget(parts, i + 1, cur.push(parts[i]), cap, maxf);
        }
    }
}

proof fn lemma_tok_sum_singleton(p: Part)
    ensures
        spec_tok_sum(seq![p]) == spec_part_tokens(p),
{
    assert(seq![p].take(0) =~= Seq::<Part>::empty());
    assert(spec_tok_sum(Seq::<Part>::empty()) == 0);
    assert(seq![p][0] == p);
}

proof fn lemma_tok_sum_push(cur: Seq<Part>, p: Part)
    ensures
        spec_tok_sum(cur.push(p)) == spec_tok_sum(cur) + spec_part_tokens(p),
{
    assert(cur.push(p).take(cur.len() as int) =~= cur);
    assert(cur.push(p)[cur.len() as int] == p);
}

/// Every part appears exactly once, in order: the chunks of the packing,
/// concatenated, are the open chunk followed by the remaining parts.
pub proof fn lemma_pack_exact(parts: Seq<Part>, i: int, cur: Seq<Part>, cap: int, maxf: int)
    requires
        0 <= i <= parts.len(),
    ensures
        spec_flatten_parts(spec_pack(parts, i, cur, cap, maxf)) == cur + parts.skip(i),
    decreases parts.len() - i,
{
    if i >= parts.len() {
        if cur.len() > 0 {
            assert(seq![cur].skip(1) =~= Seq::<Seq<Part>>::empty());
            assert(spec_flatten_parts(Seq::<Seq<Part>>::empty()) == Seq::<Part>::empty());
            assert(spec_flatten_parts(seq![cur]) =~= cur + Seq::<Part>::empty());
            assert(cur + parts.skip(i) =~= cur);
        } else {
            assert(cur + parts.skip(i) =~= Seq::<Part>::empty());
        }
    } else {
        let pt = spec_part_tokens(parts[i]);
        let new_file = cur.len() == 0 || cur[cur.len() - 1].path@ != parts[i].path@;
        let overflow = spec_tok_sum(cur) + pt > cap;
        let toomany = new_file && crate::chunker::spec_file_runs(cur) >= maxf;
        if cur.len() > 0 && (overflow || toomany) {
            lemma_pack_exact(parts, i + 1, seq![parts[i]], cap, maxf);
            assert(spec_flatten_parts(seq![cur] + spec_pack(parts, i + 1, seq![parts[i]], cap, maxf))
                =~= cur + spec_flatten_parts(spec_pack(parts, i + 1, seq![parts[i]], cap, maxf)))
                by {
                lemma_flatten_cons(cur, spec_pack(parts, i + 1, seq![parts[i]], cap, maxf));
            }
            assert(cur + (seq![parts[i]] + parts.skip(i + 1)) =~= cur + parts.skip(i));
        } else {
            lemma_pack_exact(parts, i + 1, cur.push(parts[i]), cap, maxf);
            assert(cur.push(parts[i]) + parts.skip(i + 1) =~= cur + parts.skip(i));
        }
    }
}

/// Concatenation of the part runs of a chunk list.
pub open spec fn spec_flatten_parts(chunks: Seq<Seq<Part>>) -> Seq<Part>
    decreases chunks.len(),
{
    if chunks.len() == 0 {
        Seq::empty()
    } else {
        chunks[0] + spec_flatten_parts(chunks.skip(1))
    }
}

proof fn lemma_flatten_cons(head: Seq<Part>, rest: Seq<Seq<Part>>)
    ensures
        spec_flatten_parts(seq![head] + rest) == head + spec_flatten_parts(rest),
{
    assert((seq![head] + rest)[0] == head);
    assert((seq![head] + rest).skip(1) =~= rest);
}

/// Rename one-to-one law: witnessed pairs with pairwise distinct hashes give,
/// for every content hash, at most one rename pair, and for a hash that has a
/// pair the lost and gained counts are exactly one, so the number of pairs
/// for a hash never exceeds the smaller of the two.
pub proof fn lemma_rename_one_to_one(
    ov: Seq<FileIntentEntry>,
    nv: Seq<FileIntentEntry>,
    rs: Seq<RenamePair>,
    h: Seq<u8>,
)
    requires
        spec_pairs_witnessed(ov, nv, rs),
        forall|x: int, y: int|
            0 <= x < y < rs.len() ==> (#[trigger] rs[x]).sha1@ != (#[trigger] rs[y]).sha1@,
    ensures
        spec_cnt_pairs_sha(rs, h, rs.len() as int) <= 1,
        (exists|x: int| 0 <= x < rs.len() && (#[trigger] rs[x]).sha1@ == h) ==> {
            &&& spec_cnt_lost(ov, nv, h, ov.len() as int) == 1
            &&& spec_cnt_gained(nv, ov, h, nv.len() as int) == 1
            &&& spec_cnt_pairs_sha(rs, h, rs.len() as int) <= spec_cnt_lost(
                ov,
                nv,
                h,
                ov.len() as int,
            )
            &&& spec_cnt_pairs_sha(rs, h, rs.len() as int) <= spec_cnt_gained(
                nv,
                ov,
                h,
                nv.len() as int,
            )
        },
{
    lemma_cnt_pairs_distinct(rs, h, rs.len() as int);
    if exists|x: int| 0 <= x < rs.len() && (#[trigger] rs[x]).sha1@ == h {
        let x = choose|x: int| 0 <= x < rs.len() && (#[trigger] rs[x]).sha1@ == h;
        assert(spec_pair_witness(ov, nv, rs[x]));
        assert(spec_rename_sha(ov, nv, h));
    }
}

/// Number of pairs among the first `k` that reference hash `h`.
pub open spec fn spec_cnt_pairs_sha(rs: Seq<RenamePair>, h: Seq<u8>, k: int) -> int
    decreases k,
{
    if k <= 0 || k > rs.len() {
        0
    } else {
        spec_cnt_pairs_sha(rs, h, k - 1) + if rs[k - 1].sha1@ == h {
            1int
        } else {
            0int
        }
    }
}

proof fn lemma_cnt_pairs_distinct(rs: Seq<RenamePair>, h: Seq<u8>, k: int)
    requires
        forall|x: int, y: int|
            0 <= x < y < rs.len() ==> (#[trigger] rs[x]).sha1@ != (#[trigger] rs[y]).sha1@,
        k <= rs.len(),
    ensures
        spec_cnt_pairs_sha(rs, h, k) <= 1,
        spec_cnt_pairs_sha(rs, h, k) == 1 ==> exists|x: int|
            0 <= x < k && (#[trigger] rs[x]).sha1@ == h,
        spec_cnt_pairs_sha(rs, h, k) >= 0,
    decreases k,
{
    if k > 0 {
        lemma_cnt_pairs_distinct(rs, h, k - 1);
        if rs[k - 1].sha1@ == h && spec_cnt_pairs_sha(rs, h, k - 1) == 1 {
            let x = choose|x: int| 0 <= x < k - 1 && (#[trigger] rs[x]).sha1@ == h;
            assert(rs[x].sha1@ != rs[k - 1].sha1@);
            assert(false);
        }
    }
}

/// Hash stability: the content hash is a function of the file bytes alone, so
/// scanning unchanged bytes can never change it.
pub proof fn lemma_hash_stable(a: Seq<u8>, b: Seq<u8>)
    requires
        a == b,
    ensures
        sha1_of(a) == sha1_of(b),
{
}

/// Merkle determinism: the same bytes always give the same root over the same
/// chunk size.
pub proof fn lemma_merkle_deterministic(a: Seq<u8>, b: Seq<u8>)
    requires
        a == b,
    ensures
        spec_merkle_root(spec_file_chunk_hashes(a)) == spec_merkle_root(spec_file_chunk_hashes(b)),
{
}

/// The digest of an anchor slice is a function of the slice bytes alone: two
/// anchors over equal bytes record equal digests and equal encodings.
pub proof fn lemma_anchor_deterministic(a: Seq<u8>, b: Seq<u8>)
    requires
        a == b,
    ensures
        sha256_of(a) == sha256_of(b),
        crate::digests::b64_of(a) == crate::digests::b64_of(b),
{
}

} // verus!

verus! {

/// Split/rejoin law: the bodies of the parts a snippet splits into, simply
/// concatenated in order, reproduce the split text exactly; no byte is lost
/// or duplicated by the pre-split step.
pub proof fn lemma_split_rejoin(s: Seq<u8>, target: int)
    ensures
        crate::text::spec_concat(
            crate::chunker::spec_split_bodies(
                crate::text::spec_units(s),
                0,
                Seq::empty(),
                target,
            ),
        ) == s,
{
    lemma_split_rejoin_step(crate::text::spec_units(s), 0, Seq::empty(), target);
    crate::text::lemma_units_tile(s, 0);
    assert(crate::text::spec_units(s).skip(0) =~= crate::text::spec_units(s));
    assert(s.skip(0) =~= s);
    assert(Seq::<u8>::empty() + crate::text::spec_concat(crate::text::spec_units(s)) =~= s);
}

/// Concatenating the split bodies gives the open accumulator followed by the
/// remaining units.
proof fn lemma_split_rejoin_step(units: Seq<Seq<u8>>, i: int, acc: Seq<u8>, target: int)
    requires
        0 <= i <= units.len(),
    ensures
        crate::text::spec_concat(crate::chunker::spec_split_bodies(units, i, acc, target)) == acc
            + crate::text::spec_concat(units.skip(i)),
    decreases units.len() - i,
{
    let split = crate::chunker::spec_split_bodies(units, i, acc, target);
    if i >= units.len() {
        assert(units.skip(i) =~= Seq::<Seq<u8>>::empty());
        if acc.len() > 0 {
            assert(split == seq![acc]);
            assert(seq![acc].skip(1) =~= Seq::<Seq<u8>>::empty());
            assert(crate::text::spec_concat(split) =~= acc + crate::text::spec_concat(
                units.skip(i),
            ));
        } else {
            assert(acc =~= Seq::<u8>::empty());
            assert(acc + crate::text::spec_concat(units.skip(i)) =~= Seq::<u8>::empty());
        }
    } else {
        let acc2 = acc + units[i];
        assert(units.skip(i)[0] == units[i]);
        assert(units.skip(i).skip(1) =~= units.skip(i + 1));
        if crate::spec_tokens_floor(acc2) >= target {
            lemma_split_rejoin_step(units, i + 1, Seq::empty(), target);
            let rest = crate::chunker::spec_split_bodies(units, i + 1, Seq::empty(), target);
            assert(split == seq![acc2] + rest);
            crate::text::lemma_concat_cons(acc2, rest);
            assert(crate::text::spec_concat(rest) =~= crate::text::spec_concat(units.skip(i + 1)));
            assert(acc2 + crate::text::spec_concat(units.skip(i + 1)) =~= acc
                + crate::text::spec_concat(units.skip(i)));
        } else {
            lemma_split_rejoin_step(units, i + 1, acc2, target);
            assert(acc2 + crate::text::spec_concat(units.skip(i + 1)) =~= acc
                + crate::text::spec_concat(units.skip(i)));
        }
    }
}

} // verus!
