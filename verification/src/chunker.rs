//! Chunk packer: splits oversized snippets into ordered parts and bin-packs
//! the parts into token-bounded paste chunks, then renders each chunk.
use vstd::prelude::*;

use crate::record::FileIntentEntry;
use crate::spec_tokens_floor;
use crate::text::{
    ascii_bytes, copy_bytes, eq_bytes, lit, push_all, spec_decimal, spec_lower_seq, spec_trim,
    spec_units, split_inclusive_lines, sub_vec, to_lower, trim, usize_to_decimal,
};

verus! {

/// Ceiling on distinct files placed into one paste chunk.
pub const MAX_FILES_PER_CHUNK: usize = 120;

/// Hard byte cap applied to a snippet before splitting.
pub const MAX_SECTION_CHARS: usize = 32000;

/// Target token count of one part of a split snippet.
pub const TARGET_SECTION_TOKENS: usize = 800;

/// One ordered fragment of a record's snippet, sized for pasting.
#[derive(Clone, Debug)]
pub struct Part {
    pub path: Vec<u8>,
    pub lang: Vec<u8>,
    pub sha1: Vec<u8>,
    pub size: Vec<u8>,
    pub last_modified: Vec<u8>,
    pub summary: Option<Vec<u8>>,
    pub part_idx: usize,
    pub part_total: usize,
    pub body: Vec<u8>,
    pub token_estimate: usize,
}

/// One output unit of the packer: an ordered run of parts.
#[derive(Clone, Debug)]
pub struct PasteChunk {
    pub parts: Vec<Part>,
}

/// The snippet after the hard byte cap: overlong text is cut and marked.
pub open spec fn spec_truncate(s: Seq<u8>, cap: int) -> Seq<u8> {
    if s.len() <= cap {
        s
    } else {
        s.take(cap) + ascii_bytes("\n// ... [truncated]"@)
    }
}

/// The part bodies produced by line accumulation: line units, each with its
/// own newline byte, are gathered until the running token estimate reaches
/// the target, then the part closes. No byte is dropped, so the bodies
/// concatenate back to the split text.
pub open spec fn spec_split_bodies(units: Seq<Seq<u8>>, i: int, acc: Seq<u8>, target: int) -> Seq<
    Seq<u8>,
>
    decreases units.len() - i,
{
    if i < 0 || i >= units.len() {
        if acc.len() > 0 {
            seq![acc]
        } else {
            Seq::empty()
        }
    } else {
        let acc2 = acc + units[i];
        if spec_tokens_floor(acc2) >= target {
            seq![acc2] + spec_split_bodies(units, i + 1, Seq::empty(), target)
        } else {
            spec_split_bodies(units, i + 1, acc2, target)
        }
    }
}

/// Whether a part list carries the given body sequence and metadata of `e`,
/// with one-based indices, a backfilled total, and the summary only on the
/// first part.
pub open spec fn spec_parts_shape(
    parts: Seq<Part>,
    e: FileIntentEntry,
    bodies: Seq<Seq<u8>>,
) -> bool {
    &&& parts.len() == bodies.len()
    &&& forall|i: int|
        0 <= i < parts.len() ==> {
            &&& (#[trigger] parts[i]).path@ == e.path@
            &&& parts[i].lang@ == e.lang@
            &&& parts[i].sha1@ == e.sha1@
            &&& parts[i].size@ == spec_decimal(e.size as int)
            &&& parts[i].last_modified@ == e.last_modified@
            &&& parts[i].part_idx == i + 1
            &&& parts[i].part_total == parts.len()
            &&& parts[i].body@ == bodies[i]
            &&& parts[i].token_estimate == spec_tokens_floor(bodies[i])
            &&& (if i == 0 {
                match (parts[i].summary, e.summary) {
                    (Some(a), Some(b)) => a@ == b@,
                    (None, None) => true,
                    _ => false,
                }
            } else {
                parts[i].summary is None
            })
        }
}

/// Split one record into ordered parts that respect the target token size.
///
/// A snippet whose estimate fits the target yields a single part carrying the
/// record's summary. A larger snippet is consumed line by line; each part
/// closes as soon as its estimate reaches the target. Only the first part
/// keeps the summary, and every part reports the final part count.
pub fn split_entry_into_parts(e: &FileIntentEntry, target_tokens: usize, hard_char_cap: usize) -> (r:
    Vec<Part>)
    ensures
        ({
            let snippet = spec_truncate(e.snippet@, hard_char_cap as int);
            if spec_tokens_floor(snippet) <= target_tokens {
                spec_parts_shape(r@, *e, seq![snippet])
            } else {
                spec_parts_shape(
                    r@,
                    *e,
                    spec_split_bodies(spec_units(snippet), 0, Seq::empty(), target_tokens as int),
                )
            }
        }),
{
    proof {
        reveal_strlit("\n// ... [truncated]");
    }
    let snippet: Vec<u8> = if e.snippet.len() > hard_char_cap {
        let mut s = sub_vec(e.snippet.as_slice(), 0, hard_char_cap);
        push_all(&mut s, lit("\n// ... [truncated]").as_slice());
        s
    } else {
        copy_bytes(e.snippet.as_slice())
    };
    let ghost snip = spec_truncate(e.snippet@, hard_char_cap as int);
    proof {
        assert(snippet@ == snip);
    }
    let total_est = crate::estimate_tokens_fallback(snippet.as_slice());
    if total_est <= target_tokens {
        let summary = match &e.summary {
            Some(s) => Some(copy_bytes(s.as_slice())),
            None => None,
        };
        let mut out: Vec<Part> = Vec::new();
        out.push(
            Part {
                path: copy_bytes(e.path.as_slice()),
                lang: copy_bytes(e.lang.as_slice()),
                sha1: copy_bytes(e.sha1.as_slice()),
                size: usize_to_decimal(e.size),
                last_modified: copy_bytes(e.last_modified.as_slice()),
                summary,
                part_idx: 1,
                part_total: 1,
                body: snippet,
                token_estimate: total_est,
            },
        );
        proof {
            assert(spec_parts_shape(out@, *e, seq![snip]));
        }
        return out;
    }
    // unit-by-unit accumulation into parts; units keep their newline bytes
    let lines = split_inclusive_lines(snippet.as_slice());
    let ghost lv = lines.deep_view();
    let ghost all_bodies = spec_split_bodies(lv, 0, Seq::empty(), target_tokens as int);
    let mut bodies: Vec<Vec<u8>> = Vec::new();
    let mut acc: Vec<u8> = Vec::new();
    let mut i: usize = 0;
    while i < lines.len()
        invariant
            i <= lines@.len(),
            lv == lines.deep_view(),
            lv.len() == lines@.len(),
            bodies.deep_view() + spec_split_bodies(lv, i as int, acc@, target_tokens as int)
                == all_bodies,
        decreases lines@.len() - i,
    {
        let ghost acc0 = acc@;
        push_all(&mut acc, lines[i].as_slice());
        proof {
            assert(lv[i as int] == lines@[i as int]@);
            assert(acc@ =~= acc0 + lv[i as int]);
        }
        let acc_tokens = crate::estimate_tokens_fallback(acc.as_slice());
        if acc_tokens >= target_tokens {
            let ghost prev = bodies.deep_view();
            let ghost accv = acc@;
            let body = acc;
            bodies.push(body);
            acc = Vec::new();
            proof {
                assert(bodies.deep_view() =~~= prev + seq![accv]);
                assert(bodies.deep_view() + spec_split_bodies(
                    lv,
                    i + 1,
                    Seq::empty(),
                    target_tokens as int,
                ) =~= all_bodies);
                assert(acc@ =~= Seq::<u8>::empty());
            }
        }
        i = i + 1;
    }
    if acc.len() > 0 {
        let ghost prev = bodies.deep_view();
        let ghost accv = acc@;
        bodies.push(acc);
        proof {
            assert(bodies.deep_view() =~~= prev + seq![accv]);
            assert(bodies.deep_view() =~= all_bodies);
        }
    } else {
        proof {
            assert(bodies.deep_view() =~= all_bodies);
        }
    }
    // assemble the parts: indices, totals, summary on the first part only
    let total = bodies.len();
    let mut out: Vec<Part> = Vec::new();
    let mut j: usize = 0;
    let ghost bv = bodies.deep_view();
    while j < bodies.len()
        invariant
            j <= bodies@.len(),
            bv == bodies.deep_view(),
            bv.len() == bodies@.len(),
            total == bodies@.len(),
            out@.len() == j,
            forall|x: int|
                0 <= x < j ==> {
                    &&& (#[trigger] out@[x]).path@ == e.path@
                    &&& out@[x].lang@ == e.lang@
                    &&& out@[x].sha1@ == e.sha1@
                    &&& out@[x].size@ == spec_decimal(e.size as int)
                    &&& out@[x].last_modified@ == e.last_modified@
                    &&& out@[x].part_idx == x + 1
                    &&& out@[x].part_total == total
                    &&& out@[x].body@ == bv[x]
                    &&& out@[x].token_estimate == spec_tokens_floor(bv[x])
                    &&& (if x == 0 {
                        match (out@[x].summary, e.summary) {
                            (Some(a), Some(b)) => a@ == b@,
                            (None, None) => true,
                            _ => false,
                        }
                    } else {
                        out@[x].summary is None
                    })
                },
        decreases bodies@.len() - j,
    {
        let summary = if j == 0 {
            match &e.summary {
                Some(s) => Some(copy_bytes(s.as_slice())),
                None => None,
            }
        } else {
            None
        };
        let body = copy_bytes(bodies[j].as_slice());
        let tok = crate::estimate_tokens_fallback(body.as_slice());
        proof {
            assert(bv[j as int] == bodies@[j as int]@);
        }
        out.push(
            Part {
                path: copy_bytes(e.path.as_slice()),
                lang: copy_bytes(e.lang.as_slice()),
                sha1: copy_bytes(e.sha1.as_slice()),
                size: usize_to_decimal(e.size),
                last_modified: copy_bytes(e.last_modified.as_slice()),
                summary,
                part_idx: j + 1,
                part_total: total,
                body,
                token_estimate: tok,
            },
        );
        j = j + 1;
    }
    out
}

/// Token weight of a part in the packer: never below one.
pub open spec fn spec_part_tokens(p: Part) -> int {
    if p.token_estimate < 1 {
        1
    } else {
        p.token_estimate as int
    }
}

/// Sum of part token weights.
pub open spec fn spec_tok_sum(ps: Seq<Part>) -> int
    decreases ps.len(),
{
    if ps.len() == 0 {
        0
    } else {
        spec_tok_sum(ps.take(ps.len() - 1)) + spec_part_tokens(ps[ps.len() - 1])
    }
}

/// Number of maximal runs of equal consecutive paths: the packer's count of
/// distinct files in a chunk.
pub open spec fn spec_file_runs(ps: Seq<Part>) -> int
    decreases ps.len(),
{
    if ps.len() == 0 {
        0
    } else if ps.len() == 1 {
        1
    } else {
        spec_file_runs(ps.take(ps.len() - 1)) + if ps[ps.len() - 1].path@ != ps[ps.len()
            - 2].path@ {
            1int
        } else {
            0int
        }
    }
}

/// Count the distinct files of a part run (consecutive path changes).
pub fn count_unique_files(parts: &Vec<Part>) -> (r: usize)
    ensures
        r == spec_file_runs(parts@),
        r <= parts@.len(),
{
    let mut n: usize = 0;
    let mut i: usize = 0;
    while i < parts.len()
        invariant
            i <= parts@.len(),
            n == spec_file_runs(parts@.take(i as int)),
            n <= i,
        decreases parts@.len() - i,
    {
        let is_new = if i == 0 {
            true
        } else {
            !eq_bytes(parts[i].path.as_slice(), parts[i - 1].path.as_slice())
        };
        if is_new {
            n = n + 1;
        }
        proof {
            let t = parts@.take(i + 1);
            assert(t.take(t.len() - 1) =~= parts@.take(i as int));
            assert(t[t.len() - 1] == parts@[i as int]);
            if i > 0 {
                assert(t[t.len() - 2] == parts@[i - 1]);
            }
        }
        i = i + 1;
    }
    proof {
        assert(parts@.take(parts@.len() as int) =~= parts@);
    }
    n
}

/// The greedy packing of `parts[i..]` with `cur` as the open chunk: a part
/// whose weight would push the open chunk over the budget, or that starts a
/// new file when the chunk already holds the maximum of files, closes the
/// chunk first.
pub open spec fn spec_pack(parts: Seq<Part>, i: int, cur: Seq<Part>, cap: int, maxf: int) -> Seq<
    Seq<Part>,
>
    decreases parts.len() - i,
{
    if i < 0 || i >= parts.len() {
        if cur.len() > 0 {
            seq![cur]
        } else {
            Seq::empty()
        }
    } else {
        let pt = spec_part_tokens(parts[i]);
        let new_file = cur.len() == 0 || cur[cur.len() - 1].path@ != parts[i].path@;
        let overflow = spec_tok_sum(cur) + pt > cap;
        let toomany = new_file && spec_file_runs(cur) >= maxf;
        if cur.len() > 0 && (overflow || toomany) {
            seq![cur] + spec_pack(parts, i + 1, seq![parts[i]], cap, maxf)
        } else {
            spec_pack(parts, i + 1, cur.push(parts[i]), cap, maxf)
        }
    }
}

/// Pack parts, in their given order, into token-bounded chunks.
///
/// Every chunk except a single-part one stays within the token budget; a part
/// of the same file as the chunk's last part is never forced out by the
/// files-per-chunk ceiling, only by the token budget.
pub fn pack_parts(parts: Vec<Part>, token_cap: usize, max_files: usize) -> (r: Vec<PasteChunk>)
    ensures
        r@.map_values(|c: PasteChunk| c.parts@) == spec_pack(
            parts@,
            0,
            Seq::empty(),
            token_cap as int,
            max_files as int,
        ),
{
    let ghost cap = token_cap as int;
    let ghost maxf = max_files as int;
    let ghost pv = parts@;
    let ghost whole = spec_pack(pv, 0, Seq::empty(), cap, maxf);
    let mut rest = parts;
    let mut chunks: Vec<PasteChunk> = Vec::new();
    let mut cur: Vec<Part> = Vec::new();
    let mut cur_tokens: usize = 0;
    let mut cur_files: usize = 0;
    let ghost mut i: int = 0;
    proof {
        assert(chunks@.map_values(|c: PasteChunk| c.parts@) =~= Seq::<Seq<Part>>::empty());
        assert(rest@ =~= pv.skip(0));
    }
    while rest.len() > 0
        invariant
            0 <= i <= pv.len(),
            cap == token_cap as int,
            maxf == max_files as int,
            rest@ == pv.skip(i),
            cur_tokens == spec_tok_sum(cur@),
            cur_files == spec_file_runs(cur@),
            chunks@.map_values(|c: PasteChunk| c.parts@) + spec_pack(pv, i, cur@, cap, maxf)
                == whole,
        decreases rest@.len(),
    {
        let p = rest.remove(0);
        proof {
            assert(pv.skip(i).len() > 0);
            assert(p == pv.skip(i)[0]);
            assert(p == pv[i]);
            assert(rest@ =~= pv.skip(i + 1));
        }
        let part_tokens = if p.token_estimate < 1 {
            1
        } else {
            p.token_estimate
        };
        let will_add_new_file = if cur.len() == 0 {
            true
        } else {
            !eq_bytes(cur[cur.len() - 1].path.as_slice(), p.path.as_slice())
        };
        let would_overflow = if cur_tokens > token_cap {
            true
        } else {
            part_tokens > token_cap - cur_tokens
        };
        let too_many_files = will_add_new_file && cur_files >= max_files;
        let ghost cur0 = cur@;
        proof {
            assert(part_tokens as int == spec_part_tokens(pv[i]));
            assert(will_add_new_file == (cur0.len() == 0 || cur0[cur0.len() - 1].path@
                != pv[i].path@));
            assert(would_overflow == (spec_tok_sum(cur0) + spec_part_tokens(pv[i]) > cap));
            assert(too_many_files == ((cur0.len() == 0 || cur0[cur0.len() - 1].path@
                != pv[i].path@) && spec_file_runs(cur0) >= maxf));
        }
        if cur.len() > 0 && (would_overflow || too_many_files) {
            let done = PasteChunk { parts: cur };
            let ghost prevmap = chunks@.map_values(|c: PasteChunk| c.parts@);
            chunks.push(done);
            cur = Vec::new();
            proof {
                assert(chunks@.map_values(|c: PasteChunk| c.parts@) =~= prevmap + seq![cur0]);
                assert(spec_pack(pv, i, cur0, cap, maxf) == seq![cur0] + spec_pack(
                    pv,
                    i + 1,
                    seq![pv[i]],
                    cap,
                    maxf,
                ));
            }
            cur.push(p);
            cur_tokens = part_tokens;
            cur_files = 1;
            proof {
                assert(cur@ =~= seq![pv[i]]);
                assert(spec_tok_sum(cur@) == spec_part_tokens(pv[i])) by {
                    assert(cur@.take(cur@.len() - 1) =~= Seq::<Part>::empty());
                    assert(cur@[cur@.len() - 1] == pv[i]);
                    assert(spec_tok_sum(Seq::<Part>::empty()) == 0);
                }
                assert(spec_file_runs(cur@) == 1);
                assert(chunks@.map_values(|c: PasteChunk| c.parts@) + spec_pack(
                    pv,
                    i + 1,
                    cur@,
                    cap,
                    maxf,
                ) =~= whole);
            }
        } else {
            cur.push(p);
            cur_tokens = cur_tokens + part_tokens;
            if will_add_new_file {
                cur_files = cur_files + 1;
            }
            proof {
                assert(cur@ =~= cur0.push(pv[i]));
                assert(spec_tok_sum(cur@) == spec_tok_sum(cur0) + spec_part_tokens(pv[i])) by {
                    assert(cur@.take(cur@.len() - 1) =~= cur0);
                    assert(cur@[cur@.len() - 1] == pv[i]);
                }
                assert(spec_file_runs(cur@) == spec_file_runs(cur0) + (if will_add_new_file {
                    1int
                } else {
                    0int
                })) by {
                    assert(cur@.take(cur@.len() - 1) =~= cur0);
                    assert(cur@[cur@.len() - 1] == pv[i]);
                    if cur0.len() > 0 {
                        assert(cur@[cur@.len() - 2] == cur0[cur0.len() - 1]);
                    }
                }
                assert(spec_pack(pv, i, cur0, cap, maxf) == spec_pack(
                    pv,
                    i + 1,
                    cur0.push(pv[i]),
                    cap,
                    maxf,
                ));
                assert(chunks@.map_values(|c: PasteChunk| c.parts@) + spec_pack(
                    pv,
                    i + 1,
                    cur@,
                    cap,
                    maxf,
                ) =~= whole);
            }
        }
        proof {
            i = i + 1;
        }
    }
    if cur.len() > 0 {
        let ghost cur0 = cur@;
        let ghost prevmap = chunks@.map_values(|c: PasteChunk| c.parts@);
        chunks.push(PasteChunk { parts: cur });
        proof {
            assert(chunks@.map_values(|c: PasteChunk| c.parts@) =~= prevmap + seq![cur0]);
            assert(chunks@.map_values(|c: PasteChunk| c.parts@) =~= whole);
        }
    } else {
        proof {
            assert(spec_pack(pv, i, cur@, cap, maxf) =~= Seq::<Seq<Part>>::empty());
            assert(chunks@.map_values(|c: PasteChunk| c.parts@) =~= whole);
        }
    }
    chunks
}

/// End of the run of parts sharing the run head's path, scanning from `k`.
pub open spec fn spec_run_end(parts: Seq<Part>, start: int, k: int) -> int
    decreases parts.len() - k,
{
    if k < 0 || k >= parts.len() || start < 0 || start >= parts.len() {
        if k < 0 {
            0
        } else if k > parts.len() {
            parts.len() as int
        } else {
            k
        }
    } else if parts[k].path@ != parts[start].path@ {
        k
    } else {
        spec_run_end(parts, start, k + 1)
    }
}

pub proof fn lemma_run_end_bounds(parts: Seq<Part>, start: int, k: int)
    requires
        0 <= start < parts.len(),
        0 <= k <= parts.len(),
    ensures
        k <= spec_run_end(parts, start, k) <= parts.len(),
    decreases parts.len() - k,
{
    if k < parts.len() && parts[k].path@ == parts[start].path@ {
        lemma_run_end_bounds(parts, start, k + 1);
    }
}

/// The sections of a chunk: each maximal run of parts with one path rendered
/// as one section, in order.
pub open spec fn spec_render_runs(parts: Seq<Part>, i: int) -> Seq<u8>
    decreases parts.len() - i,
{
    if i < 0 || i >= parts.len() {
        Seq::empty()
    } else {
        let j = spec_run_end(parts, i, i + 1);
        if j <= i || j > parts.len() {
            Seq::empty()
        } else {
            spec_render_section(parts.subrange(i, j)) + spec_render_runs(parts, j)
        }
    }
}

/// A whole paste chunk: a self-describing header with the chunk index, the
/// generation stamp, and the file, part, and token totals, followed by one
/// section per file.
pub open spec fn spec_render_chunk(idx: int, generated: Seq<u8>, parts: Seq<Part>) -> Seq<u8> {
    ascii_bytes("# Paste Chunk "@) + spec_decimal(idx) + ascii_bytes("\n\n> generated: "@)
        + generated + ascii_bytes("\n> files: "@) + spec_decimal(spec_file_runs(parts))
        + ascii_bytes(" | parts: "@) + spec_decimal(parts.len() as int) + ascii_bytes(
        " | ~tokens: "@,
    ) + spec_decimal(spec_tok_total(parts)) + ascii_bytes("\n\n"@) + spec_render_runs(parts, 0)
}

/// The token total of a chunk header, saturating at the machine word.
pub open spec fn spec_tok_total(parts: Seq<Part>) -> int {
    if spec_tok_sum(parts) > usize::MAX {
        usize::MAX as int
    } else {
        spec_tok_sum(parts)
    }
}

} // verus!

verus! {

/// The packer's token cap never falls below the fixed floor.
pub fn effective_token_cap(cap: usize) -> (r: usize)
    ensures
        r == if cap < 256 {
            256usize
        } else {
            cap
        },
        r >= 256,
{
    if cap < 256 {
        256
    } else {
        cap
    }
}

/// The code-fence label for a language tag: trimmed, aliases folded; an
/// unknown label passes through trimmed.
pub open spec fn spec_fence_lang(lang: Seq<u8>) -> Seq<u8> {
    let t = spec_trim(lang);
    let l = spec_lower_seq(t);
    if t.len() == 0 {
        Seq::empty()
    } else if l == ascii_bytes("rs"@) || l == ascii_bytes("rust"@) {
        ascii_bytes("rust"@)
    } else if l == ascii_bytes("ts"@) || l == ascii_bytes("typescript"@) {
        ascii_bytes("ts"@)
    } else if l == ascii_bytes("js"@) || l == ascii_bytes("javascript"@) {
        ascii_bytes("javascript"@)
    } else if l == ascii_bytes("py"@) || l == ascii_bytes("python"@) {
        ascii_bytes("python"@)
    } else if l == ascii_bytes("go"@) || l == ascii_bytes("golang"@) {
        ascii_bytes("go"@)
    } else if l == ascii_bytes("sh"@) || l == ascii_bytes("bash"@) || l == ascii_bytes("zsh"@) {
        ascii_bytes("bash"@)
    } else if l == ascii_bytes("c"@) || l == ascii_bytes("h"@) {
        ascii_bytes("c"@)
    } else if l == ascii_bytes("cpp"@) || l == ascii_bytes("cc"@) || l == ascii_bytes("cxx"@) || l
        == ascii_bytes("hpp"@) {
        ascii_bytes("cpp"@)
    } else if l == ascii_bytes("java"@) {
        ascii_bytes("java"@)
    } else if l == ascii_bytes("md"@) || l == ascii_bytes("markdown"@) {
        ascii_bytes("md"@)
    } else if l == ascii_bytes("toml"@) {
        ascii_bytes("toml"@)
    } else if l == ascii_bytes("yaml"@) || l == ascii_bytes("yml"@) {
        ascii_bytes("yaml"@)
    } else if l == ascii_bytes("json"@) || l == ascii_bytes("jsonl"@) {
        ascii_bytes("json"@)
    } else {
        t
    }
}

/// Map a language tag to its code-fence label.
pub fn fence_lang(lang: &[u8]) -> (r: Vec<u8>)
    ensures
        r@ == spec_fence_lang(lang@),
{
    proof {
        reveal_strlit("rs");
        reveal_strlit("rust");
        reveal_strlit("ts");
        reveal_strlit("typescript");
        reveal_strlit("js");
        reveal_strlit("javascript");
        reveal_strlit("py");
        reveal_strlit("python");
        reveal_strlit("go");
        reveal_strlit("golang");
        reveal_strlit("sh");
        reveal_strlit("bash");
        reveal_strlit("zsh");
        reveal_strlit("c");
        reveal_strlit("h");
        reveal_strlit("cpp");
        reveal_strlit("cc");
        reveal_strlit("cxx");
        reveal_strlit("hpp");
        reveal_strlit("java");
        reveal_strlit("md");
        reveal_strlit("markdown");
        reveal_strlit("toml");
        reveal_strlit("yaml");
        reveal_strlit("yml");
        reveal_strlit("json");
        reveal_strlit("jsonl");
    }
    let t = trim(lang);
    if t.len() == 0 {
        return Vec::new();
    }
    let lv = to_lower(t.as_slice());
    let l = lv.as_slice();
    if eq_bytes(l, lit("rs").as_slice()) || eq_bytes(l, lit("rust").as_slice()) {
        lit("rust")
    } else if eq_bytes(l, lit("ts").as_slice()) || eq_bytes(l, lit("typescript").as_slice()) {
        lit("ts")
    } else if eq_bytes(l, lit("js").as_slice()) || eq_bytes(l, lit("javascript").as_slice()) {
        lit("javascript")
    } else if eq_bytes(l, lit("py").as_slice()) || eq_bytes(l, lit("python").as_slice()) {
        lit("python")
    } else if eq_bytes(l, lit("go").as_slice()) || eq_bytes(l, lit("golang").as_slice()) {
        lit("go")
    } else if eq_bytes(l, lit("sh").as_slice()) || eq_bytes(l, lit("bash").as_slice()) || eq_bytes(
        l,
        lit("zsh").as_slice(),
    ) {
        lit("bash")
    } else if eq_bytes(l, lit("c").as_slice()) || eq_bytes(l, lit("h").as_slice()) {
        lit("c")
    } else if eq_bytes(l, lit("cpp").as_slice()) || eq_bytes(l, lit("cc").as_slice()) || eq_bytes(
        l,
        lit("cxx").as_slice(),
    ) || eq_bytes(l, lit("hpp").as_slice()) {
        lit("cpp")
    } else if eq_bytes(l, lit("java").as_slice()) {
        lit("java")
    } else if eq_bytes(l, lit("md").as_slice()) || eq_bytes(l, lit("markdown").as_slice()) {
        lit("md")
    } else if eq_bytes(l, lit("toml").as_slice()) {
        lit("toml")
    } else if eq_bytes(l, lit("yaml").as_slice()) || eq_bytes(l, lit("yml").as_slice()) {
        lit("yaml")
    } else if eq_bytes(l, lit("json").as_slice()) || eq_bytes(l, lit("jsonl").as_slice()) {
        lit("json")
    } else {
        t
    }
}

/// One fenced part body inside a section.
pub open spec fn spec_render_part(p: Part, multi: bool) -> Seq<u8> {
    (if multi {
        ascii_bytes("\n**Part "@) + spec_decimal(p.part_idx as int) + ascii_bytes("/"@)
            + spec_decimal(p.part_total as int) + ascii_bytes("**\n"@)
    } else {
        Seq::<u8>::empty()
    }) + ascii_bytes("```"@) + spec_fence_lang(p.lang@) + ascii_bytes("\n"@) + p.body@
        + ascii_bytes("\n```\n"@)
}

/// The fenced bodies of a section's parts, in order.
pub open spec fn spec_render_parts(parts: Seq<Part>, i: int, multi: bool) -> Seq<u8>
    decreases parts.len() - i,
{
    if i < 0 || i >= parts.len() {
        Seq::empty()
    } else {
        spec_render_part(parts[i], multi) + spec_render_parts(parts, i + 1, multi)
    }
}

/// One file section: a heading with the path and language, the hash, size,
/// and mtime line, the summary when the first part carries one, then the
/// fenced parts.
pub open spec fn spec_render_section(parts: Seq<Part>) -> Seq<u8> {
    if parts.len() == 0 {
        Seq::empty()
    } else {
        let meta = parts[0];
        let multi = parts.len() > 1 || meta.part_total > 1;
        let title = if multi {
            ascii_bytes("`"@) + meta.path@ + ascii_bytes("` ["@) + meta.lang@ + ascii_bytes(
                "] ("@,
            ) + spec_decimal(meta.part_total as int) + ascii_bytes(" parts)"@)
        } else {
            ascii_bytes("`"@) + meta.path@ + ascii_bytes("` ["@) + meta.lang@ + ascii_bytes("]"@)
        };
        let summary_line = match meta.summary {
            Some(sm) => if spec_trim(sm@).len() > 0 {
                ascii_bytes("**Summary:** "@) + spec_trim(sm@) + ascii_bytes("\n"@)
            } else {
                Seq::<u8>::empty()
            },
            None => Seq::<u8>::empty(),
        };
        ascii_bytes("## "@) + title + ascii_bytes("\n\n- sha1: `"@) + meta.sha1@ + ascii_bytes(
            "` | size: "@,
        ) + meta.size@ + ascii_bytes(" | mtime: "@) + meta.last_modified@ + ascii_bytes("\n"@)
            + summary_line + spec_render_parts(parts, 0, multi) + ascii_bytes("\n"@)
    }
}

/// Render one file section into bytes.
pub fn render_file_section(parts: &Vec<Part>) -> (r: Vec<u8>)
    ensures
        r@ == spec_render_section(parts@),
{
    let r = render_section_range(parts, 0, parts.len());
    proof {
        assert(parts@.subrange(0, parts@.len() as int) =~= parts@);
    }
    r
}

/// Render the section of the parts in `[start, end)`.
#[verifier::rlimit(100)]
fn render_section_range(parts: &Vec<Part>, start: usize, end: usize) -> (r: Vec<u8>)
    requires
        start <= end <= parts@.len(),
    ensures
        r@ == spec_render_section(parts@.subrange(start as int, end as int)),
{
    let ghost sub = parts@.subrange(start as int, end as int);
    proof {
        reveal_strlit("`");
        reveal_strlit("` [");
        reveal_strlit("] (");
        reveal_strlit(" parts)");
        reveal_strlit("]");
        reveal_strlit("## ");
        reveal_strlit("\n\n- sha1: `");
        reveal_strlit("` | size: ");
        reveal_strlit(" | mtime: ");
        reveal_strlit("\n");
        reveal_strlit("**Summary:** ");
        reveal_strlit("\n**Part ");
        reveal_strlit("/");
        reveal_strlit("**\n");
        reveal_strlit("```");
        reveal_strlit("\n```\n");
    }
    if start == end {
        proof {
            assert(sub.len() == 0);
        }
        return Vec::new();
    }
    proof {
        assert(sub[0] == parts@[start as int]);
    }
    let multi = end - start > 1 || parts[start].part_total > 1;
    let mut out = lit("## ");
    push_all(&mut out, lit("`").as_slice());
    push_all(&mut out, parts[start].path.as_slice());
    push_all(&mut out, lit("` [").as_slice());
    push_all(&mut out, parts[start].lang.as_slice());
    if multi {
        push_all(&mut out, lit("] (").as_slice());
        let n = usize_to_decimal(parts[start].part_total);
        push_all(&mut out, n.as_slice());
        push_all(&mut out, lit(" parts)").as_slice());
    } else {
        push_all(&mut out, lit("]").as_slice());
    }
    push_all(&mut out, lit("\n\n- sha1: `").as_slice());
    push_all(&mut out, parts[start].sha1.as_slice());
    push_all(&mut out, lit("` | size: ").as_slice());
    push_all(&mut out, parts[start].size.as_slice());
    push_all(&mut out, lit(" | mtime: ").as_slice());
    push_all(&mut out, parts[start].last_modified.as_slice());
    push_all(&mut out, lit("\n").as_slice());
    match &parts[start].summary {
        Some(sm) => {
            let tsm = trim(sm.as_slice());
            if tsm.len() > 0 {
                push_all(&mut out, lit("**Summary:** ").as_slice());
                push_all(&mut out, tsm.as_slice());
                push_all(&mut out, lit("\n").as_slice());
            }
        },
        None => {},
    }
    let ghost header = out@;
    let mut i: usize = start;
    proof {
        assert(spec_render_parts(sub, 0, multi).take(0) =~= Seq::<u8>::empty());
        assert(out@ =~= header + spec_render_parts(sub, 0, multi).take(0));
        assert(spec_render_parts(sub, 0, multi).skip(0) =~= spec_render_parts(sub, 0, multi));
    }
    while i < end
        invariant
            start <= i <= end <= parts@.len(),
            sub == parts@.subrange(start as int, end as int),
            sub.len() == end - start,
            multi == (sub.len() > 1 || sub[0].part_total > 1),
            out@ == header + spec_render_parts(sub, 0, multi).take(
                spec_render_parts(sub, 0, multi).len() - spec_render_parts(
                    sub,
                    i - start,
                    multi,
                ).len(),
            ),
            spec_render_parts(sub, i - start, multi).len() <= spec_render_parts(
                sub,
                0,
                multi,
            ).len(),
            spec_render_parts(sub, 0, multi).skip(
                spec_render_parts(sub, 0, multi).len() - spec_render_parts(
                    sub,
                    i - start,
                    multi,
                ).len(),
            ) == spec_render_parts(sub, i - start, multi),
        decreases end - i,
    {
        proof {
            assert(sub[i - start] == parts@[i as int]);
        }
        proof {
            reveal_strlit("\n**Part ");
            reveal_strlit("/");
            reveal_strlit("**\n");
            reveal_strlit("```");
            reveal_strlit("\n");
            reveal_strlit("\n```\n");
        }
        let ghost o0 = out@;
        if multi {
            push_all(&mut out, lit("\n**Part ").as_slice());
            let a = usize_to_decimal(parts[i].part_idx);
            push_all(&mut out, a.as_slice());
            push_all(&mut out, lit("/").as_slice());
            let b = usize_to_decimal(parts[i].part_total);
            push_all(&mut out, b.as_slice());
            push_all(&mut out, lit("**\n").as_slice());
        }
        push_all(&mut out, lit("```").as_slice());
        let f = fence_lang(parts[i].lang.as_slice());
        push_all(&mut out, f.as_slice());
        push_all(&mut out, lit("\n").as_slice());
        push_all(&mut out, parts[i].body.as_slice());
        push_all(&mut out, lit("\n```\n").as_slice());
        proof {
            assert(out@ =~= o0 + spec_render_part(sub[i - start], multi));
            assert(spec_render_parts(sub, i - start, multi) == spec_render_part(
                sub[i - start],
                multi,
            ) + spec_render_parts(sub, i - start + 1, multi));
            lemma_render_parts_len(sub, i - start, multi);
            lemma_render_parts_len(sub, i - start + 1, multi);
            let whole = spec_render_parts(sub, 0, multi);
            let li = spec_render_parts(sub, i - start, multi).len() as int;
            let ln = spec_render_parts(sub, i - start + 1, multi).len() as int;
            let piece = spec_render_part(sub[i - start], multi);
            assert(whole.skip(whole.len() - li) == spec_render_parts(sub, i - start, multi));
            assert(whole.take(whole.len() - ln) =~= whole.take(whole.len() - li) + piece) by {
                assert forall|k: int| 0 <= k < whole.len() - ln implies #[trigger] whole.take(
                    whole.len() - ln,
                )[k] == (whole.take(whole.len() - li) + piece)[k] by {
                    if k >= whole.len() - li {
                        assert(whole[k] == whole.skip(whole.len() - li)[k - (whole.len() - li)]);
                    }
                }
            }
            assert(out@ =~= header + whole.take(whole.len() - ln));
        }
        i = i + 1;
    }
    proof {
        assert(spec_render_parts(sub, sub.len() as int, multi) =~= Seq::<u8>::empty());
        assert(spec_render_parts(sub, 0, multi).take(spec_render_parts(sub, 0, multi).len() as int)
            =~= spec_render_parts(sub, 0, multi));
        assert(out@ =~= header + spec_render_parts(sub, 0, multi));
    }
    push_all(&mut out, lit("\n").as_slice());
    proof {
        assert(out@ =~= spec_render_section(sub));
    }
    out
}

/// The tail of a parts rendering is a suffix of the whole rendering.
proof fn lemma_render_parts_len(parts: Seq<Part>, i: int, multi: bool)
    requires
        0 <= i <= parts.len(),
    ensures
        spec_render_parts(parts, i, multi).len() <= spec_render_parts(parts, 0, multi).len(),
        spec_render_parts(parts, 0, multi).skip(
            spec_render_parts(parts, 0, multi).len() - spec_render_parts(parts, i, multi).len(),
        ) == spec_render_parts(parts, i, multi),
    decreases i,
{
    if i > 0 {
        lemma_render_parts_len(parts, i - 1, multi);
        assert(spec_render_parts(parts, i - 1, multi) == spec_render_part(parts[i - 1], multi)
            + spec_render_parts(parts, i, multi));
        let whole = spec_render_parts(parts, 0, multi);
        assert(whole.skip(whole.len() - spec_render_parts(parts, i, multi).len()) =~= whole.skip(
            whole.len() - spec_render_parts(parts, i - 1, multi).len(),
        ).skip(spec_render_part(parts[i - 1], multi).len() as int));
    } else {
        assert(spec_render_parts(parts, 0, multi).skip(0) =~= spec_render_parts(parts, 0, multi));
    }
}

} // verus!

verus! {

/// Render one paste chunk with its header; the generation stamp is passed in
/// so that the rendering stays a pure function of its inputs.
#[verifier::rlimit(100)]
pub fn render_chunk(idx: usize, generated: &[u8], parts: &Vec<Part>) -> (r: Vec<u8>)
    ensures
        r@ == spec_render_chunk(idx as int, generated@, parts@),
{
    proof {
        reveal_strlit("# Paste Chunk ");
        reveal_strlit("\n\n> generated: ");
        reveal_strlit("\n> files: ");
        reveal_strlit(" | parts: ");
        reveal_strlit(" | ~tokens: ");
        reveal_strlit("\n\n");
    }
    let mut out = lit("# Paste Chunk ");
    let d = usize_to_decimal(idx);
    push_all(&mut out, d.as_slice());
    push_all(&mut out, lit("\n\n> generated: ").as_slice());
    push_all(&mut out, generated);
    push_all(&mut out, lit("\n> files: ").as_slice());
    let files = count_unique_files(parts);
    let fd = usize_to_decimal(files);
    push_all(&mut out, fd.as_slice());
    push_all(&mut out, lit(" | parts: ").as_slice());
    let pd = usize_to_decimal(parts.len());
    push_all(&mut out, pd.as_slice());
    push_all(&mut out, lit(" | ~tokens: ").as_slice());
    let tokens = sum_tokens(parts);
    let td = usize_to_decimal(tokens);
    push_all(&mut out, td.as_slice());
    push_all(&mut out, lit("\n\n").as_slice());
    let ghost header = out@;
    let ghost pv = parts@;
    let mut i: usize = 0;
    proof {
        assert(spec_render_runs(pv, 0).take(0) =~= Seq::<u8>::empty());
        assert(out@ =~= header + spec_render_runs(pv, 0).take(0));
        assert(spec_render_runs(pv, 0).skip(0) =~= spec_render_runs(pv, 0));
    }
    while i < parts.len()
        invariant
            i <= pv.len(),
            parts@ == pv,
            out@ == header + spec_render_runs(pv, 0).take(
                spec_render_runs(pv, 0).len() - spec_render_runs(pv, i as int).len(),
            ),
            spec_render_runs(pv, i as int).len() <= spec_render_runs(pv, 0).len(),
            spec_render_runs(pv, 0).skip(
                spec_render_runs(pv, 0).len() - spec_render_runs(pv, i as int).len(),
            ) == spec_render_runs(pv, i as int),
        decreases pv.len() - i,
    {
        // scan to the end of the current file's run
        proof {
            lemma_run_end_bounds(pv, i as int, i + 1);
        }
        let mut j: usize = i + 1;
        while j < parts.len() && eq_bytes(parts[j].path.as_slice(), parts[i].path.as_slice())
            invariant
                i < j <= pv.len(),
                parts@ == pv,
                i < pv.len(),
                spec_run_end(pv, i as int, j as int) == spec_run_end(pv, i as int, i + 1),
            decreases pv.len() - j,
        {
            j = j + 1;
        }
        proof {
            assert(spec_run_end(pv, i as int, j as int) == j as int);
        }
        let section = render_section_range(parts, i, j);
        let ghost o0 = out@;
        push_all(&mut out, section.as_slice());
        proof {
            let whole = spec_render_runs(pv, 0);
            let li = spec_render_runs(pv, i as int).len() as int;
            let ln = spec_render_runs(pv, j as int).len() as int;
            let piece = spec_render_section(pv.subrange(i as int, j as int));
            assert(spec_render_runs(pv, i as int) == piece + spec_render_runs(pv, j as int));
            assert(whole.skip(whole.len() - li) == spec_render_runs(pv, i as int));
            assert(whole.skip(whole.len() - ln) =~= spec_render_runs(pv, j as int)) by {
                assert(whole.skip(whole.len() - li).skip(piece.len() as int) =~= whole.skip(
                    whole.len() - ln,
                ));
            }
            assert(whole.take(whole.len() - ln) =~= whole.take(whole.len() - li) + piece) by {
                assert forall|x: int| 0 <= x < whole.len() - ln implies #[trigger] whole.take(
                    whole.len() - ln,
                )[x] == (whole.take(whole.len() - li) + piece)[x] by {
                    if x >= whole.len() - li {
                        assert(whole[x] == whole.skip(whole.len() - li)[x - (whole.len() - li)]);
                    }
                }
            }
            assert(out@ =~= header + whole.take(whole.len() - ln));
        }
        i = j;
    }
    proof {
        assert(spec_render_runs(pv, pv.len() as int) =~= Seq::<u8>::empty());
        assert(spec_render_runs(pv, 0).take(spec_render_runs(pv, 0).len() as int)
            =~= spec_render_runs(pv, 0));
        assert(out@ =~= spec_render_chunk(idx as int, generated@, pv));
    }
    out
}

/// Sum of token weights of a part list.
fn sum_tokens(parts: &Vec<Part>) -> (r: usize)
    ensures
        r as int == spec_tok_total(parts@),
{
    let mut total: usize = 0;
    let mut i: usize = 0;
    proof {
        assert(parts@.take(0) =~= Seq::<Part>::empty());
    }
    while i < parts.len()
        invariant
            i <= parts@.len(),
            total as int == if spec_tok_sum(parts@.take(i as int)) > usize::MAX {
                usize::MAX as int
            } else {
                spec_tok_sum(parts@.take(i as int))
            },
        decreases parts@.len() - i,
    {
        let w = if parts[i].token_estimate < 1 {
            1
        } else {
            parts[i].token_estimate
        };
        let next = if total > usize::MAX - w {
            usize::MAX
        } else {
            total + w
        };
        proof {
            let t = parts@.take(i + 1);
            assert(t.take(t.len() - 1) =~= parts@.take(i as int));
            assert(t[t.len() - 1] == parts@[i as int]);
            lemma_tok_sum_nonneg(parts@.take(i as int));
        }
        total = next;
        i = i + 1;
    }
    proof {
        assert(parts@.take(parts@.len() as int) =~= parts@);
    }
    total
}

proof fn lemma_tok_sum_nonneg(ps: Seq<Part>)
    ensures
        spec_tok_sum(ps) >= 0,
    decreases ps.len(),
{
    if ps.len() > 0 {
        lemma_tok_sum_nonneg(ps.take(ps.len() - 1));
    }
}

} // verus!
