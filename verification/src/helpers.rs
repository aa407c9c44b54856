//! Path and snippet heuristics: role inference, module identifiers, and
//! light symbol skimming without any real parsing.
use vstd::prelude::*;

use crate::record::{spec_has, Role};
use crate::text::{
    ascii_bytes, contains_sub, copy_bytes, ends_with, eq_bytes, find_sub, lit, push_all,
    spec_contains, spec_ends_with, spec_lower_seq, spec_match_at, spec_starts_with, starts_with,
    sub_vec, to_lower,
};

verus! {

/// The byte `\` replaced by `/` throughout, as path normalisation.
pub open spec fn spec_slashes(s: Seq<u8>) -> Seq<u8> {
    s.map(
        |_i: int, b: u8|
            if b == 92 {
                47u8
            } else {
                b
            },
    )
}

/// Replace backslashes by forward slashes.
pub fn normalize_slashes(s: &[u8]) -> (r: Vec<u8>)
    ensures
        r@ == spec_slashes(s@),
{
    let mut out: Vec<u8> = Vec::new();
    let mut i: usize = 0;
    while i < s.len()
        invariant
            i <= s@.len(),
            out@ == spec_slashes(s@.take(i as int)),
        decreases s@.len() - i,
    {
        if s[i] == 92 {
            out.push(47);
        } else {
            out.push(s[i]);
        }
        proof {
            assert(out@ =~= spec_slashes(s@.take(i + 1)));
        }
        i = i + 1;
    }
    proof {
        assert(s@.take(s@.len() as int) =~= s@);
    }
    out
}

/// The coarse role the heuristics assign to a file.
pub open spec fn spec_infer_role(path: Seq<u8>, lang: Seq<u8>, snippet: Seq<u8>) -> Role {
    let p = spec_lower_seq(spec_slashes(path));
    let l = spec_lower_seq(lang);
    let s = spec_lower_seq(snippet);
    if spec_contains(p, ascii_bytes("/tests/"@)) || spec_ends_with(p, ascii_bytes("/tests"@))
        || spec_contains(p, ascii_bytes("/test/"@)) || spec_ends_with(p, ascii_bytes("_test.rs"@))
        || spec_ends_with(p, ascii_bytes("_tests.rs"@)) || spec_ends_with(
        p,
        ascii_bytes(".spec.ts"@),
    ) || spec_ends_with(p, ascii_bytes(".spec.js"@)) || spec_contains(s, ascii_bytes("#[test]"@))
        || spec_contains(s, ascii_bytes("pytest"@)) {
        Role::Test
    } else if spec_ends_with(p, ascii_bytes("src/main.rs"@)) || spec_contains(
        p,
        ascii_bytes("/src/bin/"@),
    ) || spec_contains(s, ascii_bytes("fn main("@)) || (l == ascii_bytes("python"@)
        && spec_contains(s, ascii_bytes("if __name__ == '__main__'"@))) {
        Role::Bin
    } else if spec_ends_with(p, ascii_bytes(".md"@)) || spec_contains(p, ascii_bytes("/docs/"@))
        || spec_ends_with(p, ascii_bytes("/docs"@)) || spec_ends_with(p, ascii_bytes("readme"@))
        || spec_ends_with(p, ascii_bytes("readme.md"@)) {
        Role::Doc
    } else if l == ascii_bytes("toml"@) || l == ascii_bytes("yaml"@) || l == ascii_bytes("yml"@)
        || l == ascii_bytes("json"@) || spec_ends_with(p, ascii_bytes(".env"@)) || spec_contains(
        p,
        ascii_bytes(".github/workflows/"@),
    ) || spec_contains(p, ascii_bytes("/.gitlab-ci"@)) || spec_contains(
        p,
        ascii_bytes("/.circleci/"@),
    ) {
        Role::Config
    } else if spec_ends_with(p, ascii_bytes(".sh"@)) || spec_starts_with(
        s,
        ascii_bytes("#!/bin/bash"@),
    ) || spec_starts_with(s, ascii_bytes("#!/usr/bin/env bash"@)) || spec_starts_with(
        s,
        ascii_bytes("#!/usr/bin/env sh"@),
    ) {
        Role::Script
    } else if spec_contains(p, ascii_bytes("/ui"@)) || spec_contains(p, ascii_bytes("/panel"@))
        || spec_contains(p, ascii_bytes("/editor"@)) || spec_contains(p, ascii_bytes("/view"@))
        || spec_contains(p, ascii_bytes("/component"@)) || spec_contains(
        p,
        ascii_bytes("/widget"@),
    ) || spec_contains(p, ascii_bytes("/screen"@)) || spec_contains(p, ascii_bytes("/page"@)) {
        Role::Ui
    } else if spec_ends_with(p, ascii_bytes("lib.rs"@)) {
        Role::Lib
    } else if spec_contains(p, ascii_bytes("/core/"@)) || spec_contains(p, ascii_bytes("core_"@))
        || spec_contains(p, ascii_bytes("_core"@)) || spec_contains(p, ascii_bytes("/engine/"@))
        || spec_contains(p, ascii_bytes("engine_"@)) || spec_contains(p, ascii_bytes("_engine"@)) {
        Role::Core
    } else {
        Role::Lib
    }
}

/// Infer a coarse role from path shape, language, and snippet signals.
#[verifier::loop_isolation(false)]
pub fn infer_role(path: &[u8], lang: &[u8], snippet: &[u8]) -> (r: Role)
    ensures
        r == spec_infer_role(path@, lang@, snippet@),
{
    proof {
        reveal_strlit("/tests/");
        reveal_strlit("/tests");
        reveal_strlit("/test/");
        reveal_strlit("_test.rs");
        reveal_strlit("_tests.rs");
        reveal_strlit(".spec.ts");
        reveal_strlit(".spec.js");
        reveal_strlit("#[test]");
        reveal_strlit("pytest");
        reveal_strlit("src/main.rs");
        reveal_strlit("/src/bin/");
        reveal_strlit("fn main(");
        reveal_strlit("python");
        reveal_strlit("if __name__ == '__main__'");
        reveal_strlit(".md");
        reveal_strlit("/docs/");
        reveal_strlit("/docs");
        reveal_strlit("readme");
        reveal_strlit("readme.md");
        reveal_strlit("toml");
        reveal_strlit("yaml");
        reveal_strlit("yml");
        reveal_strlit("json");
        reveal_strlit(".env");
        reveal_strlit(".github/workflows/");
        reveal_strlit("/.gitlab-ci");
        reveal_strlit("/.circleci/");
        reveal_strlit(".sh");
        reveal_strlit("#!/bin/bash");
        reveal_strlit("#!/usr/bin/env bash");
        reveal_strlit("#!/usr/bin/env sh");
        reveal_strlit("/ui");
        reveal_strlit("/panel");
        reveal_strlit("/editor");
        reveal_strlit("/view");
        reveal_strlit("/component");
        reveal_strlit("/widget");
        reveal_strlit("/screen");
        reveal_strlit("/page");
        reveal_strlit("lib.rs");
        reveal_strlit("/core/");
        reveal_strlit("core_");
        reveal_strlit("_core");
        reveal_strlit("/engine/");
        reveal_strlit("engine_");
        reveal_strlit("_engine");
    }
    let pv = to_lower(normalize_slashes(path).as_slice());
    let p = pv.as_slice();
    let lv = to_lower(lang);
    let l = lv.as_slice();
    let sv = to_lower(snippet);
    let s = sv.as_slice();
    if contains_sub(p, lit("/tests/").as_slice()) || ends_with(p, lit("/tests").as_slice())
        || contains_sub(p, lit("/test/").as_slice()) || ends_with(p, lit("_test.rs").as_slice())
        || ends_with(p, lit("_tests.rs").as_slice()) || ends_with(p, lit(".spec.ts").as_slice())
        || ends_with(p, lit(".spec.js").as_slice()) || contains_sub(s, lit("#[test]").as_slice())
        || contains_sub(s, lit("pytest").as_slice()) {
        Role::Test
    } else if ends_with(p, lit("src/main.rs").as_slice()) || contains_sub(
        p,
        lit("/src/bin/").as_slice(),
    ) || contains_sub(s, lit("fn main(").as_slice()) || (eq_bytes(l, lit("python").as_slice())
        && contains_sub(s, lit("if __name__ == '__main__'").as_slice())) {
        Role::Bin
    } else if ends_with(p, lit(".md").as_slice()) || contains_sub(p, lit("/docs/").as_slice())
        || ends_with(p, lit("/docs").as_slice()) || ends_with(p, lit("readme").as_slice())
        || ends_with(p, lit("readme.md").as_slice()) {
        Role::Doc
    } else if eq_bytes(l, lit("toml").as_slice()) || eq_bytes(l, lit("yaml").as_slice())
        || eq_bytes(l, lit("yml").as_slice()) || eq_bytes(l, lit("json").as_slice()) || ends_with(
        p,
        lit(".env").as_slice(),
    ) || contains_sub(p, lit(".github/workflows/").as_slice()) || contains_sub(
        p,
        lit("/.gitlab-ci").as_slice(),
    ) || contains_sub(p, lit("/.circleci/").as_slice()) {
        Role::Config
    } else if ends_with(p, lit(".sh").as_slice()) || starts_with(
        s,
        lit("#!/bin/bash").as_slice(),
    ) || starts_with(
        s,
        lit("#!/usr/bin/env bash").as_slice(),
    ) || starts_with(s, lit("#!/usr/bin/env sh").as_slice()) {
        Role::Script
    } else if contains_sub(p, lit("/ui").as_slice()) || contains_sub(p, lit("/panel").as_slice())
        || contains_sub(p, lit("/editor").as_slice()) || contains_sub(p, lit("/view").as_slice())
        || contains_sub(p, lit("/component").as_slice()) || contains_sub(
        p,
        lit("/widget").as_slice(),
    ) || contains_sub(p, lit("/screen").as_slice()) || contains_sub(p, lit("/page").as_slice()) {
        Role::Ui
    } else if ends_with(p, lit("lib.rs").as_slice()) {
        Role::Lib
    } else if contains_sub(p, lit("/core/").as_slice()) || contains_sub(
        p,
        lit("core_").as_slice(),
    ) || contains_sub(p, lit("_core").as_slice()) || contains_sub(p, lit("/engine/").as_slice())
        || contains_sub(p, lit("engine_").as_slice()) || contains_sub(
        p,
        lit("_engine").as_slice(),
    ) {
        Role::Core
    } else {
        Role::Lib
    }
}

/// Byte `from` replaced by the string `rep`, from position `i` on.
pub open spec fn spec_replace_from(s: Seq<u8>, i: int, from: u8, rep: Seq<u8>) -> Seq<u8>
    decreases s.len() - i,
{
    if i < 0 || i >= s.len() {
        Seq::empty()
    } else if s[i] == from {
        rep + spec_replace_from(s, i + 1, from, rep)
    } else {
        seq![s[i]] + spec_replace_from(s, i + 1, from, rep)
    }
}

/// Replace every occurrence of the byte `from` by the string `rep`.
pub fn replace_byte(s: &[u8], from: u8, rep: &[u8]) -> (r: Vec<u8>)
    ensures
        r@ == spec_replace_from(s@, 0, from, rep@),
{
    let mut out: Vec<u8> = Vec::new();
    let mut i: usize = 0;
    proof {
        assert(out@ + spec_replace_from(s@, 0, from, rep@) =~= spec_replace_from(
            s@,
            0,
            from,
            rep@,
        ));
    }
    while i < s.len()
        invariant
            i <= s@.len(),
            out@ + spec_replace_from(s@, i as int, from, rep@) == spec_replace_from(
                s@,
                0,
                from,
                rep@,
            ),
        decreases s@.len() - i,
    {
        let ghost o0 = out@;
        if s[i] == from {
            push_all(&mut out, rep);
            proof {
                assert(out@ + spec_replace_from(s@, i + 1, from, rep@) =~= o0
                    + spec_replace_from(s@, i as int, from, rep@));
            }
        } else {
            out.push(s[i]);
            proof {
                assert(out@ + spec_replace_from(s@, i + 1, from, rep@) =~= o0
                    + spec_replace_from(s@, i as int, from, rep@));
            }
        }
        i = i + 1;
    }
    proof {
        assert(spec_replace_from(s@, s@.len() as int, from, rep@) =~= Seq::<u8>::empty());
        assert(out@ =~= out@ + spec_replace_from(s@, i as int, from, rep@));
    }
    out
}

/// Rust module id: crate and bin roots, `bin::` entries, `mod.rs` folding,
/// and `/`-to-`::` conversion under `src/`.
pub open spec fn spec_rust_module_id(p: Seq<u8>) -> Seq<u8> {
    if spec_ends_with(p, ascii_bytes("src/lib.rs"@)) {
        ascii_bytes("crate"@)
    } else if spec_ends_with(p, ascii_bytes("src/main.rs"@)) {
        ascii_bytes("bin"@)
    } else if spec_starts_with(p, ascii_bytes("src/bin/"@)) {
        let rest = p.skip(8);
        let name = if spec_ends_with(rest, ascii_bytes(".rs"@)) {
            rest.take(rest.len() - 3)
        } else {
            rest
        };
        ascii_bytes("bin::"@) + spec_replace_from(name, 0, 47, ascii_bytes("::"@))
    } else if spec_starts_with(p, ascii_bytes("src/"@)) {
        let rest = p.skip(4);
        if spec_ends_with(rest, ascii_bytes("/mod.rs"@)) {
            spec_replace_from(rest.take(rest.len() - 7), 0, 47, ascii_bytes("::"@))
        } else {
            let stem = if spec_ends_with(rest, ascii_bytes(".rs"@)) {
                rest.take(rest.len() - 3)
            } else {
                rest
            };
            spec_replace_from(stem, 0, 47, ascii_bytes("::"@))
        }
    } else {
        spec_generic_module_id(p)
    }
}

/// Generic module id: the extension dropped, `/` becoming `::`.
pub open spec fn spec_generic_module_id(p: Seq<u8>) -> Seq<u8> {
    spec_replace_from(spec_drop_ext(p), 0, 47, ascii_bytes("::"@))
}

/// Everything before the last dot, or the whole string without one.
pub open spec fn spec_drop_ext(p: Seq<u8>) -> Seq<u8> {
    if spec_contains(p, seq![46u8]) {
        p.take(spec_last_dot(p, p.len() as int - 1))
    } else {
        p
    }
}

/// Index of the last dot at or before `i`.
pub open spec fn spec_last_dot(p: Seq<u8>, i: int) -> int
    decreases i,
{
    if i < 0 || i >= p.len() {
        0
    } else if p[i] == 46 {
        i
    } else if i == 0 {
        0
    } else {
        spec_last_dot(p, i - 1)
    }
}

/// Drop the extension: bytes from the last dot on.
pub fn drop_ext(p: &[u8]) -> (r: Vec<u8>)
    ensures
        r@ == spec_drop_ext(p@),
{
    let mut i: usize = p.len();
    while i > 0
        invariant
            i <= p@.len(),
            forall|j: int| i <= j < p@.len() ==> p@[j] != 46,
        decreases i,
    {
        if p[i - 1] == 46 {
            proof {
                assert(spec_match_at(p@, seq![46u8], i - 1)) by {
                    assert(p@.subrange(i - 1, i as int) =~= seq![46u8]);
                }
                lemma_last_dot(p@, p@.len() as int - 1, i - 1);
            }
            return sub_vec(p, 0, i - 1);
        }
        i = i - 1;
    }
    proof {
        assert(!spec_contains(p@, seq![46u8])) by {
            if spec_contains(p@, seq![46u8]) {
                let j = choose|j: int| 0 <= j && spec_match_at(p@, seq![46u8], j);
                assert(p@.subrange(j, j + 1)[0] == p@[j]);
            }
        }
    }
    copy_bytes(p)
}

proof fn lemma_last_dot(p: Seq<u8>, i: int, d: int)
    requires
        0 <= d <= i < p.len() || (0 <= d && i == p.len() - 1 && d <= i),
        p[d] == 46,
        forall|j: int| d < j < p.len() ==> p[j] != 46,
    ensures
        spec_last_dot(p, p.len() as int - 1) == d,
    decreases i,
{
    if p.len() - 1 > d {
        lemma_last_dot_step(p, p.len() as int - 1, d);
    }
}

proof fn lemma_last_dot_step(p: Seq<u8>, i: int, d: int)
    requires
        0 <= d <= i < p.len(),
        p[d] == 46,
        forall|j: int| d < j < p.len() ==> p[j] != 46,
    ensures
        spec_last_dot(p, i) == d,
    decreases i,
{
    if i > d {
        lemma_last_dot_step(p, i - 1, d);
    }
}

/// Best-effort module id from path and language.
pub open spec fn spec_infer_module_id(path: Seq<u8>, lang: Seq<u8>) -> Seq<u8> {
    let p = spec_slashes(path);
    let l = spec_lower_seq(lang);
    if l == ascii_bytes("rust"@) {
        spec_rust_module_id(p)
    } else if l == ascii_bytes("python"@) {
        spec_python_module_id(p)
    } else if l == ascii_bytes("ts"@) || l == ascii_bytes("typescript"@) || l == ascii_bytes("js"@)
        || l == ascii_bytes("javascript"@) {
        spec_generic_module_id(p)
    } else {
        spec_generic_module_id(p)
    }
}

/// Python module id: the `.py` suffix dropped, `/` becoming `.`.
pub open spec fn spec_python_module_id(p: Seq<u8>) -> Seq<u8> {
    let stem = if spec_ends_with(p, ascii_bytes(".py"@)) {
        p.take(p.len() - 3)
    } else {
        p
    };
    spec_replace_from(stem, 0, 47, seq![46u8])
}

pub fn rust_module_id(p: &[u8]) -> (r: Vec<u8>)
    ensures
        r@ == spec_rust_module_id(p@),
{
    proof {
        reveal_strlit("src/lib.rs");
        reveal_strlit("src/main.rs");
        reveal_strlit("src/bin/");
        reveal_strlit("src/");
        reveal_strlit("/mod.rs");
        reveal_strlit(".rs");
        reveal_strlit("crate");
        reveal_strlit("bin");
        reveal_strlit("bin::");
        reveal_strlit("::");
    }
    if ends_with(p, lit("src/lib.rs").as_slice()) {
        return lit("crate");
    }
    if ends_with(p, lit("src/main.rs").as_slice()) {
        return lit("bin");
    }
    if starts_with(p, lit("src/bin/").as_slice()) {
        let rest = sub_vec(p, 8, p.len());
        proof {
            assert(rest@ =~= p@.skip(8));
        }
        let name = if ends_with(rest.as_slice(), lit(".rs").as_slice()) {
            let n = sub_vec(rest.as_slice(), 0, rest.len() - 3);
            proof {
                assert(n@ =~= rest@.take(rest@.len() - 3));
            }
            n
        } else {
            rest
        };
        let mut out = lit("bin::");
        let tail = replace_byte(name.as_slice(), 47, lit("::").as_slice());
        push_all(&mut out, tail.as_slice());
        return out;
    }
    if starts_with(p, lit("src/").as_slice()) {
        let rest = sub_vec(p, 4, p.len());
        proof {
            assert(rest@ =~= p@.skip(4));
        }
        if ends_with(rest.as_slice(), lit("/mod.rs").as_slice()) {
            let m = sub_vec(rest.as_slice(), 0, rest.len() - 7);
            proof {
                assert(m@ =~= rest@.take(rest@.len() - 7));
            }
            return replace_byte(m.as_slice(), 47, lit("::").as_slice());
        }
        let stem = if ends_with(rest.as_slice(), lit(".rs").as_slice()) {
            let n = sub_vec(rest.as_slice(), 0, rest.len() - 3);
            proof {
                assert(n@ =~= rest@.take(rest@.len() - 3));
            }
            n
        } else {
            rest
        };
        return replace_byte(stem.as_slice(), 47, lit("::").as_slice());
    }
    generic_module_id(p)
}

pub fn python_module_id(p: &[u8]) -> (r: Vec<u8>)
    ensures
        r@ == spec_python_module_id(p@),
{
    proof {
        reveal_strlit(".py");
        reveal_strlit(".");
    }
    let stem = if ends_with(p, lit(".py").as_slice()) {
        let n = sub_vec(p, 0, p.len() - 3);
        proof {
            assert(n@ =~= p@.take(p@.len() - 3));
        }
        n
    } else {
        copy_bytes(p)
    };
    let r = replace_byte(stem.as_slice(), 47, lit(".").as_slice());
    proof {
        assert(ascii_bytes("."@) =~= seq![46u8]);
    }
    r
}

/// Web module id: like the generic one, namespaces separated by `::`.
pub fn web_module_id(p: &[u8]) -> (r: Vec<u8>)
    ensures
        r@ == spec_generic_module_id(p@),
{
    generic_module_id(p)
}

pub fn generic_module_id(p: &[u8]) -> (r: Vec<u8>)
    ensures
        r@ == spec_generic_module_id(p@),
{
    proof {
        reveal_strlit("::");
    }
    let stem = drop_ext(p);
    replace_byte(stem.as_slice(), 47, lit("::").as_slice())
}

pub fn infer_module_id(path: &[u8], lang: &[u8]) -> (r: Vec<u8>)
    ensures
        r@ == spec_infer_module_id(path@, lang@),
{
    proof {
        reveal_strlit("rust");
        reveal_strlit("python");
        reveal_strlit("ts");
        reveal_strlit("typescript");
        reveal_strlit("js");
        reveal_strlit("javascript");
    }
    let pv = normalize_slashes(path);
    let p = pv.as_slice();
    let lv = to_lower(lang);
    let l = lv.as_slice();
    if eq_bytes(l, lit("rust").as_slice()) {
        rust_module_id(p)
    } else if eq_bytes(l, lit("python").as_slice()) {
        python_module_id(p)
    } else if eq_bytes(l, lit("ts").as_slice()) || eq_bytes(l, lit("typescript").as_slice())
        || eq_bytes(l, lit("js").as_slice()) || eq_bytes(l, lit("javascript").as_slice()) {
        web_module_id(p)
    } else {
        generic_module_id(p)
    }
}

/// All strings pairwise distinct.
pub open spec fn spec_distinct(s: Seq<Seq<u8>>) -> bool {
    forall|i: int, j: int| 0 <= i < j < s.len() ==> (#[trigger] s[i]) != (#[trigger] s[j])
}

/// The first occurrences of the strings of `s[i..]`, appended to `acc` in
/// the order they are met.
pub open spec fn spec_dedup_from(s: Seq<Seq<u8>>, i: int, acc: Seq<Seq<u8>>) -> Seq<Seq<u8>>
    decreases s.len() - i,
{
    if i < 0 || i >= s.len() {
        acc
    } else if spec_has(acc, s[i]) {
        spec_dedup_from(s, i + 1, acc)
    } else {
        spec_dedup_from(s, i + 1, acc.push(s[i]))
    }
}

/// Each distinct string once, at its first occurrence, in input order.
pub open spec fn spec_dedup(s: Seq<Seq<u8>>) -> Seq<Seq<u8>> {
    spec_dedup_from(s, 0, Seq::empty())
}

/// Deduplication leaves the accumulated prefix in place.
pub proof fn lemma_dedup_prefix(s: Seq<Seq<u8>>, i: int, acc: Seq<Seq<u8>>)
    ensures
        spec_dedup_from(s, i, acc).len() >= acc.len(),
        forall|k: int|
            0 <= k < acc.len() ==> (#[trigger] spec_dedup_from(s, i, acc)[k]) == acc[k],
    decreases s.len() - i,
{
    if 0 <= i < s.len() {
        if spec_has(acc, s[i]) {
            lemma_dedup_prefix(s, i + 1, acc);
        } else {
            lemma_dedup_prefix(s, i + 1, acc.push(s[i]));
        }
    }
}

/// A nonempty input keeps its first element first after deduplication.
pub proof fn lemma_dedup_head(s: Seq<Seq<u8>>)
    requires
        s.len() > 0,
    ensures
        spec_dedup(s).len() > 0,
        spec_dedup(s)[0] == s[0],
{
    assert(!spec_has(Seq::<Seq<u8>>::empty(), s[0]));
    lemma_dedup_prefix(s, 1, Seq::<Seq<u8>>::empty().push(s[0]));
    assert(Seq::<Seq<u8>>::empty().push(s[0])[0] == s[0]);
}

/// Deduplicate, keeping the first occurrence of each string in order.
pub fn dedup_preserve_order(v: Vec<Vec<u8>>) -> (r: Vec<Vec<u8>>)
    ensures
        r.deep_view() == spec_dedup(v.deep_view()),
        spec_distinct(r.deep_view()),
        forall|i: int|
            0 <= i < r.deep_view().len() ==> spec_has(v.deep_view(), #[trigger] r.deep_view()[i]),
        forall|i: int|
            0 <= i < v.deep_view().len() ==> spec_has(r.deep_view(), #[trigger] v.deep_view()[i]),
{
    let mut out: Vec<Vec<u8>> = Vec::new();
    let mut i: usize = 0;
    proof {
        assert(out.deep_view() =~= Seq::<Seq<u8>>::empty());
    }
    while i < v.len()
        invariant
            i <= v@.len(),
            v.deep_view().len() == v@.len(),
            spec_dedup_from(v.deep_view(), i as int, out.deep_view()) == spec_dedup(v.deep_view()),
            spec_distinct(out.deep_view()),
            forall|x: int|
                0 <= x < out.deep_view().len() ==> spec_has(
                    v.deep_view(),
                    #[trigger] out.deep_view()[x],
                ),
            forall|x: int|
                0 <= x < i ==> spec_has(out.deep_view(), #[trigger] v.deep_view()[x]),
        decreases v@.len() - i,
    {
        proof {
            assert(v.deep_view()[i as int] == v@[i as int]@);
        }
        if !crate::record::has_item(&out, v[i].as_slice()) {
            let item = copy_bytes(v[i].as_slice());
            let ghost iv = item@;
            let ghost prev = out.deep_view();
            out.push(item);
            proof {
                assert(out.deep_view() =~~= prev.push(iv));
                assert forall|x: int|
                    0 <= x < i + 1 implies spec_has(
                    out.deep_view(),
                    #[trigger] v.deep_view()[x],
                ) by {
                    if x < i {
                        let w = choose|w: int|
                            0 <= w < prev.len() && prev[w] == v.deep_view()[x];
                        assert(out.deep_view()[w] == v.deep_view()[x]);
                    } else {
                        assert(out.deep_view()[prev.len() as int] == v.deep_view()[x]);
                    }
                }
            }
        }
        i = i + 1;
    }
    proof {
        assert(spec_dedup_from(v.deep_view(), i as int, out.deep_view()) == out.deep_view());
    }
    out
}


/// Index of the first match of `n` in `s` at or after `i`; the length of `s`
/// when there is none.
pub open spec fn spec_first_sub(s: Seq<u8>, n: Seq<u8>, i: int) -> int
    decreases s.len() - i,
{
    if n.len() == 0 || i < 0 || i > s.len() - n.len() {
        s.len() as int
    } else if spec_match_at(s, n, i) {
        i
    } else {
        spec_first_sub(s, n, i + 1)
    }
}

pub proof fn lemma_first_sub_at(s: Seq<u8>, n: Seq<u8>, i: int, p: int)
    requires
        n.len() > 0,
        0 <= i <= p,
        spec_match_at(s, n, p),
        forall|j: int| i <= j < p ==> !spec_match_at(s, n, j),
    ensures
        spec_first_sub(s, n, i) == p,
    decreases p - i,
{
    if i < p {
        lemma_first_sub_at(s, n, i + 1, p);
    }
}

pub proof fn lemma_first_sub_none(s: Seq<u8>, n: Seq<u8>, i: int)
    requires
        n.len() > 0,
        0 <= i,
        forall|j: int| i <= j ==> !spec_match_at(s, n, j),
    ensures
        spec_first_sub(s, n, i) == s.len(),
    decreases s.len() - i,
{
    if i <= s.len() - n.len() {
        lemma_first_sub_none(s, n, i + 1);
    }
}

/// The text before the first `//`, trimmed; the whole text when none occurs.
pub open spec fn spec_cut_comment(l: Seq<u8>) -> Seq<u8> {
    let p = spec_first_sub(l, ascii_bytes("//"@), 0);
    if p < l.len() {
        crate::text::spec_trim(l.take(p))
    } else {
        l
    }
}

/// Drop a trailing `//` comment from a line.
pub fn trim_inline_comment(l: &[u8]) -> (r: Vec<u8>)
    ensures
        r@ == spec_cut_comment(l@),
{
    proof {
        reveal_strlit("//");
    }
    match find_sub(l, lit("//").as_slice(), 0) {
        Some(p) => {
            proof {
                lemma_first_sub_at(l@, ascii_bytes("//"@), 0, p as int);
            }
            let code = sub_vec(l, 0, p);
            proof {
                assert(code@ =~= l@.take(p as int));
            }
            crate::text::trim(code.as_slice())
        },
        None => {
            proof {
                lemma_first_sub_none(l@, ascii_bytes("//"@), 0);
            }
            copy_bytes(l)
        },
    }
}

/// End of the declaration token at `j`: identifier bytes and `::` pairs.
pub open spec fn spec_sig_tok_end(t: Seq<u8>, j: int) -> int
    decreases t.len() - j,
{
    if j < 0 {
        0
    } else if j >= t.len() {
        t.len() as int
    } else if crate::lex::spec_is_ident_continue(t[j]) {
        spec_sig_tok_end(t, j + 1)
    } else if t[j] == 58 && j + 1 < t.len() && t[j + 1] == 58 {
        spec_sig_tok_end(t, j + 2)
    } else {
        j
    }
}

/// End of the first whitespace-delimited word at `j`.
pub open spec fn spec_word_end(t: Seq<u8>, j: int) -> int
    decreases t.len() - j,
{
    if j < 0 {
        0
    } else if j >= t.len() {
        t.len() as int
    } else if !crate::text::spec_is_ws(t[j]) {
        spec_word_end(t, j + 1)
    } else {
        j
    }
}

proof fn lemma_sig_tok_end_bounds(t: Seq<u8>, j: int)
    requires
        0 <= j <= t.len(),
    ensures
        j <= spec_sig_tok_end(t, j) <= t.len(),
    decreases t.len() - j,
{
    if j < t.len() {
        if crate::lex::spec_is_ident_continue(t[j]) {
            lemma_sig_tok_end_bounds(t, j + 1);
        } else if t[j] == 58 && j + 1 < t.len() && t[j + 1] == 58 {
            lemma_sig_tok_end_bounds(t, j + 2);
        }
    }
}

proof fn lemma_word_end_bounds(t: Seq<u8>, j: int)
    requires
        0 <= j <= t.len(),
    ensures
        j <= spec_word_end(t, j) <= t.len(),
    decreases t.len() - j,
{
    if j < t.len() && !crate::text::spec_is_ws(t[j]) {
        lemma_word_end_bounds(t, j + 1);
    }
}

/// The identifier the skimmers capture after a declaration keyword: the
/// prefix stripped once, the rest trimmed, then the leading token of
/// identifier bytes and `::` pairs, or the first whitespace-delimited word
/// when no such token starts the text.
pub open spec fn spec_sig_ident(line: Seq<u8>, prefix: Seq<u8>) -> Seq<u8> {
    let rest = if spec_starts_with(line, prefix) {
        line.skip(prefix.len() as int)
    } else {
        line
    };
    let t = crate::text::spec_trim(rest);
    let j = spec_sig_tok_end(t, 0);
    if j > 0 {
        t.take(j)
    } else {
        t.take(spec_word_end(t, 0))
    }
}

/// Capture the identifier after a declaration keyword, as the skimmers do.
pub fn sig_ident(line_after_prefix: &[u8], prefix: &[u8]) -> (r: Vec<u8>)
    requires
        prefix@.len() > 0,
    ensures
        r@ == spec_sig_ident(line_after_prefix@, prefix@),
{
    let rest0 = if starts_with(line_after_prefix, prefix) {
        let v = sub_vec(line_after_prefix, prefix.len(), line_after_prefix.len());
        proof {
            assert(v@ =~= line_after_prefix@.skip(prefix@.len() as int));
        }
        v
    } else {
        copy_bytes(line_after_prefix)
    };
    let rest = crate::text::trim(rest0.as_slice());
    let ghost tv = rest@;
    proof {
        lemma_sig_tok_end_bounds(tv, 0);
    }
    let mut j: usize = 0;
    while j < rest.len() && (crate::lex::is_ident_continue(rest[j]) || (rest[j] == 58 && j + 1
        < rest.len() && rest[j + 1] == 58))
        invariant
            0 <= j <= tv.len(),
            tv == rest@,
            spec_sig_tok_end(tv, j as int) == spec_sig_tok_end(tv, 0),
        decreases tv.len() - j,
    {
        if rest[j] == 58 {
            proof {
                lemma_sig_tok_end_bounds(tv, j + 2);
            }
            j = j + 2;
        } else {
            proof {
                lemma_sig_tok_end_bounds(tv, j + 1);
            }
            j = j + 1;
        }
    }
    proof {
        assert(spec_sig_tok_end(tv, j as int) == j as int);
    }
    if j > 0 {
        let r = sub_vec(rest.as_slice(), 0, j);
        proof {
            assert(r@ =~= tv.take(j as int));
        }
        r
    } else {
        // fall back to the first whitespace-separated word
        proof {
            lemma_word_end_bounds(tv, 0);
        }
        let mut k: usize = 0;
        while k < rest.len() && !crate::text::is_ws(rest[k])
            invariant
                0 <= k <= tv.len(),
                tv == rest@,
                spec_word_end(tv, k as int) == spec_word_end(tv, 0),
            decreases tv.len() - k,
        {
            k = k + 1;
        }
        proof {
            assert(spec_word_end(tv, k as int) == k as int);
        }
        let r = sub_vec(rest.as_slice(), 0, k);
        proof {
            assert(r@ =~= tv.take(k as int));
        }
        r
    }
}

/// One trimmed, comment-stripped Rust line's contribution to the imports:
/// the body of a `use` line, its semicolon dropped.
pub open spec fn spec_rust_import_of(l: Seq<u8>) -> Seq<Seq<u8>> {
    if spec_starts_with(l, ascii_bytes("use "@)) {
        let b0 = l.skip(4);
        let b1 = if b0.len() > 0 && b0[b0.len() - 1] == 59 {
            b0.take(b0.len() - 1)
        } else {
            b0
        };
        let b = crate::text::spec_trim(b1);
        if b.len() > 0 {
            seq![b]
        } else {
            Seq::empty()
        }
    } else {
        Seq::empty()
    }
}

/// One cleaned Rust line's contribution to the exports: the identifier of a
/// `pub fn`/`struct`/`enum`/`trait`/`mod` declaration.
pub open spec fn spec_rust_export_of(l: Seq<u8>) -> Seq<Seq<u8>> {
    if spec_starts_with(l, ascii_bytes("pub "@)) {
        let li = crate::text::spec_trim(l.skip(4));
        if spec_starts_with(li, ascii_bytes("fn "@)) {
            seq![spec_sig_ident(li, ascii_bytes("fn "@))]
        } else if spec_starts_with(li, ascii_bytes("struct "@)) {
            seq![spec_sig_ident(li, ascii_bytes("struct "@))]
        } else if spec_starts_with(li, ascii_bytes("enum "@)) {
            seq![spec_sig_ident(li, ascii_bytes("enum "@))]
        } else if spec_starts_with(li, ascii_bytes("trait "@)) {
            seq![spec_sig_ident(li, ascii_bytes("trait "@))]
        } else if spec_starts_with(li, ascii_bytes("mod "@)) {
            seq![spec_sig_ident(li, ascii_bytes("mod "@))]
        } else {
            Seq::empty()
        }
    } else {
        Seq::empty()
    }
}

/// A snippet line as the Rust skimmer sees it: trimmed, comment dropped.
pub open spec fn spec_clean_rust(line: Seq<u8>) -> Seq<u8> {
    spec_cut_comment(crate::text::spec_trim(line))
}

/// All Rust imports collected from the lines at `i` on, before deduplication.
pub open spec fn spec_rust_imports(lines: Seq<Seq<u8>>, i: int) -> Seq<Seq<u8>>
    decreases lines.len() - i,
{
    if i < 0 || i >= lines.len() {
        Seq::empty()
    } else {
        spec_rust_import_of(spec_clean_rust(lines[i])) + spec_rust_imports(lines, i + 1)
    }
}

/// All Rust exports collected from the lines at `i` on, before deduplication.
pub open spec fn spec_rust_exports(lines: Seq<Seq<u8>>, i: int) -> Seq<Seq<u8>>
    decreases lines.len() - i,
{
    if i < 0 || i >= lines.len() {
        Seq::empty()
    } else {
        spec_rust_export_of(spec_clean_rust(lines[i])) + spec_rust_exports(lines, i + 1)
    }
}

/// Skim `use` imports and `pub` declarations from Rust lines: exactly the
/// per-line collections, deduplicated in first-appearance order.
#[verifier::rlimit(100)]
pub fn skim_rust(s: &[u8]) -> (r: (Vec<Vec<u8>>, Vec<Vec<u8>>))
    ensures
        r.0.deep_view() == spec_dedup(spec_rust_imports(crate::text::spec_lines(s@), 0)),
        r.1.deep_view() == spec_dedup(spec_rust_exports(crate::text::spec_lines(s@), 0)),
        spec_distinct(r.0.deep_view()),
        spec_distinct(r.1.deep_view()),
{
    proof {
        reveal_strlit("use ");
        reveal_strlit("pub ");
        reveal_strlit("fn ");
        reveal_strlit("struct ");
        reveal_strlit("enum ");
        reveal_strlit("trait ");
        reveal_strlit("mod ");
    }
    let lines = crate::text::split_lines(s);
    let ghost lv = lines.deep_view();
    let mut imports: Vec<Vec<u8>> = Vec::new();
    let mut exports: Vec<Vec<u8>> = Vec::new();
    let mut i: usize = 0;
    while i < lines.len()
        invariant
            i <= lines@.len(),
            lv == lines.deep_view(),
            lv.len() == lines@.len(),
            imports.deep_view() + spec_rust_imports(lv, i as int) == spec_rust_imports(lv, 0),
            exports.deep_view() + spec_rust_exports(lv, i as int) == spec_rust_exports(lv, 0),
        decreases lines@.len() - i,
    {
        proof {
            reveal_strlit("use ");
            reveal_strlit("pub ");
            reveal_strlit("fn ");
            reveal_strlit("struct ");
            reveal_strlit("enum ");
            reveal_strlit("trait ");
            reveal_strlit("mod ");
            assert(lv[i as int] == lines@[i as int]@);
        }
        let t0 = crate::text::trim(lines[i].as_slice());
        let clean = trim_inline_comment(t0.as_slice());
        let l = clean.as_slice();
        let ghost cl = spec_clean_rust(lv[i as int]);
        proof {
            assert(l@ == cl);
        }
        let ghost imp0 = imports.deep_view();
        let ghost exp0 = exports.deep_view();
        if starts_with(l, lit("use ").as_slice()) {
            proof {
                assert(ascii_bytes("use "@).len() == 4);
            }
            let mut body = sub_vec(l, 4, l.len());
            proof {
                assert(body@ =~= cl.skip(4));
            }
            if body.len() > 0 && body[body.len() - 1] == 59 {
                let shorter = sub_vec(body.as_slice(), 0, body.len() - 1);
                proof {
                    assert(shorter@ =~= body@.take(body@.len() - 1));
                }
                body = shorter;
            }
            let body = crate::text::trim(body.as_slice());
            if body.len() > 0 {
                let ghost bv = body@;
                imports.push(body);
                proof {
                    assert(imports.deep_view() =~~= imp0.push(bv));
                    assert(spec_rust_import_of(cl) =~= seq![bv]);
                    assert(imports.deep_view() =~= imp0 + spec_rust_import_of(cl));
                }
            } else {
                proof {
                    assert(spec_rust_import_of(cl) =~= Seq::<Seq<u8>>::empty());
                }
            }
            proof {
                assert(!spec_starts_with(cl, ascii_bytes("pub "@))) by {
                    if spec_starts_with(cl, ascii_bytes("pub "@)) {
                        assert(cl.take(4)[0] == cl[0]);
                    }
                }
                assert(spec_rust_export_of(cl) =~= Seq::<Seq<u8>>::empty());
            }
        } else if starts_with(l, lit("pub ").as_slice()) {
            proof {
                assert(ascii_bytes("pub "@).len() == 4);
                assert(spec_rust_import_of(cl) =~= Seq::<Seq<u8>>::empty());
            }
            let li0 = sub_vec(l, 4, l.len());
            proof {
                assert(li0@ =~= cl.skip(4));
            }
            let li = crate::text::trim(li0.as_slice());
            let ghost liv = li@;
            let found: Option<Vec<u8>> = if starts_with(li.as_slice(), lit("fn ").as_slice()) {
                Some(sig_ident(li.as_slice(), lit("fn ").as_slice()))
            } else if starts_with(li.as_slice(), lit("struct ").as_slice()) {
                Some(sig_ident(li.as_slice(), lit("struct ").as_slice()))
            } else if starts_with(li.as_slice(), lit("enum ").as_slice()) {
                Some(sig_ident(li.as_slice(), lit("enum ").as_slice()))
            } else if starts_with(li.as_slice(), lit("trait ").as_slice()) {
                Some(sig_ident(li.as_slice(), lit("trait ").as_slice()))
            } else if starts_with(li.as_slice(), lit("mod ").as_slice()) {
                Some(sig_ident(li.as_slice(), lit("mod ").as_slice()))
            } else {
                None
            };
            match found {
                Some(idv) => {
                    let ghost iv = idv@;
                    exports.push(idv);
                    proof {
                        assert(exports.deep_view() =~~= exp0.push(iv));
                        assert(spec_rust_export_of(cl) =~= seq![iv]);
                        assert(exports.deep_view() =~= exp0 + spec_rust_export_of(cl));
                    }
                },
                None => {
                    proof {
                        assert(spec_rust_export_of(cl) =~= Seq::<Seq<u8>>::empty());
                    }
                },
            }
        } else {
            proof {
                assert(spec_rust_import_of(cl) =~= Seq::<Seq<u8>>::empty());
                assert(spec_rust_export_of(cl) =~= Seq::<Seq<u8>>::empty());
            }
        }
        proof {
            assert(spec_rust_imports(lv, i as int) == spec_rust_import_of(cl)
                + spec_rust_imports(lv, i + 1));
            assert(spec_rust_exports(lv, i as int) == spec_rust_export_of(cl)
                + spec_rust_exports(lv, i + 1));
            assert(imports.deep_view() + spec_rust_imports(lv, i + 1) =~= spec_rust_imports(lv, 0));
            assert(exports.deep_view() + spec_rust_exports(lv, i + 1) =~= spec_rust_exports(lv, 0));
        }
        i = i + 1;
    }
    proof {
        assert(spec_rust_imports(lv, lv.len() as int) =~= Seq::<Seq<u8>>::empty());
        assert(spec_rust_exports(lv, lv.len() as int) =~= Seq::<Seq<u8>>::empty());
        assert(imports.deep_view() =~= spec_rust_imports(lv, 0));
        assert(exports.deep_view() =~= spec_rust_exports(lv, 0));
    }
    (dedup_preserve_order(imports), dedup_preserve_order(exports))
}

/// Bytes that quote or terminate a module specifier.
pub open spec fn spec_is_quoteish(b: u8) -> bool {
    b == 34 || b == 39 || b == 96 || b == 59
}

pub open spec fn spec_sq_start(s: Seq<u8>) -> Seq<u8>
    decreases s.len(),
{
    if s.len() > 0 && spec_is_quoteish(s[0]) {
        spec_sq_start(s.skip(1))
    } else {
        s
    }
}

pub open spec fn spec_sq_end(s: Seq<u8>) -> Seq<u8>
    decreases s.len(),
{
    if s.len() > 0 && spec_is_quoteish(s[s.len() - 1]) {
        spec_sq_end(s.take(s.len() - 1))
    } else {
        s
    }
}

/// A module specifier with whitespace, quotes, and semicolons stripped.
pub open spec fn spec_strip_quotes(s: Seq<u8>) -> Seq<u8> {
    spec_sq_end(spec_sq_start(crate::text::spec_trim(s)))
}

proof fn lemma_sq_start_step(s: Seq<u8>, k: int)
    requires
        0 <= k <= s.len(),
        forall|j: int| 0 <= j < k ==> spec_is_quoteish(s[j]),
    ensures
        spec_sq_start(s) == spec_sq_start(s.skip(k)),
    decreases k,
{
    if k > 0 {
        assert(spec_is_quoteish(s[0]));
        assert(s.skip(1).skip(k - 1) =~= s.skip(k));
        lemma_sq_start_step(s.skip(1), k - 1);
    } else {
        assert(s.skip(0) =~= s);
    }
}

proof fn lemma_sq_end_step(s: Seq<u8>, k: int)
    requires
        0 <= k <= s.len(),
        forall|j: int| k <= j < s.len() ==> spec_is_quoteish(s[j]),
    ensures
        spec_sq_end(s) == spec_sq_end(s.take(k)),
    decreases s.len() - k,
{
    if k < s.len() {
        assert(spec_is_quoteish(s[s.len() - 1]));
        assert(s.take(s.len() - 1).take(k) =~= s.take(k));
        lemma_sq_end_step(s.take(s.len() - 1), k);
    } else {
        assert(s.take(s.len() as int) =~= s);
    }
}

/// Trim whitespace, then quote characters and semicolons, from both ends.
fn strip_quotes(s: &[u8]) -> (r: Vec<u8>)
    ensures
        r@ == spec_strip_quotes(s@),
{
    let t = crate::text::trim(s);
    let mut a: usize = 0;
    while a < t.len() && (t[a] == 34 || t[a] == 39 || t[a] == 96 || t[a] == 59)
        invariant
            a <= t@.len(),
            forall|j: int| 0 <= j < a ==> spec_is_quoteish(t@[j]),
        decreases t@.len() - a,
    {
        a = a + 1;
    }
    proof {
        lemma_sq_start_step(t@, a as int);
        if a < t@.len() {
            assert(t@.skip(a as int)[0] == t@[a as int]);
            assert(spec_sq_start(t@.skip(a as int)) == t@.skip(a as int));
        } else {
            assert(t@.skip(a as int) =~= Seq::<u8>::empty());
            assert(spec_sq_start(t@) =~= t@.skip(a as int));
        }
    }
    let mut b: usize = t.len();
    while b > a && (t[b - 1] == 34 || t[b - 1] == 39 || t[b - 1] == 96 || t[b - 1] == 59)
        invariant
            a <= b <= t@.len(),
            forall|j: int| b <= j < t@.len() ==> spec_is_quoteish(t@[j]),
        decreases b,
    {
        b = b - 1;
    }
    proof {
        let m = t@.skip(a as int);
        lemma_sq_end_step(m, b - a);
        if b > a {
            assert(m.take(b - a)[(b - a) - 1] == t@[b - 1]);
            assert(spec_sq_end(m.take(b - a)) == m.take(b - a));
        } else {
            assert(m.take(b - a) =~= Seq::<u8>::empty());
            assert(spec_sq_end(m.take(b - a)) =~= m.take(b - a));
        }
        assert(t@.subrange(a as int, b as int) =~= m.take(b - a));
    }
    crate::text::sub_vec(t.as_slice(), a, b)
}

/// The comma-separated tokens of `rest[start..]`: each piece trimmed, its
/// first whitespace-delimited word kept under the prefix, empty words dropped.
pub open spec fn spec_comma_tokens(rest: Seq<u8>, prefix: Seq<u8>, start: int) -> Seq<Seq<u8>>
    decreases rest.len() - start,
{
    if start < 0 || start > rest.len() {
        Seq::empty()
    } else {
        let c0 = crate::util::spec_first_byte(rest, 44, start);
        let c = if c0 < start {
            start
        } else if c0 > rest.len() {
            rest.len() as int
        } else {
            c0
        };
        let t = crate::text::spec_trim(rest.subrange(start, c));
        let w = t.take(spec_word_end(t, 0));
        (if w.len() > 0 {
            seq![prefix + w]
        } else {
            Seq::empty()
        }) + (if c < rest.len() {
            spec_comma_tokens(rest, prefix, c + 1)
        } else {
            Seq::empty()
        })
    }
}

/// Split on commas, keep each piece's first word, prefix it, collect.
fn push_comma_tokens(out: &mut Vec<Vec<u8>>, rest: &[u8], prefix: &Vec<u8>)
    ensures
        final(out).deep_view() == old(out).deep_view() + spec_comma_tokens(rest@, prefix@, 0),
{
    let ghost oldv = old(out).deep_view();
    let mut start: usize = 0;
    let mut done = false;
    proof {
        assert(out.deep_view() + spec_comma_tokens(rest@, prefix@, 0) =~= oldv
            + spec_comma_tokens(rest@, prefix@, 0));
    }
    while !done
        invariant
            !done ==> start <= rest@.len() && out.deep_view() + spec_comma_tokens(
                rest@,
                prefix@,
                start as int,
            ) == oldv + spec_comma_tokens(rest@, prefix@, 0),
            done ==> out.deep_view() == oldv + spec_comma_tokens(rest@, prefix@, 0),
        decreases rest@.len() - start + if done {
            0int
        } else {
            1int
        },
    {
        let c = match crate::text::find_byte(rest, 44, start) {
            Some(c) => {
                proof {
                    crate::util::lemma_first_byte_step(rest@, 44, start as int, c as int);
                }
                c
            },
            None => {
                proof {
                    crate::util::lemma_first_byte_none(rest@, 44, start as int);
                }
                rest.len()
            },
        };
        proof {
            assert(crate::util::spec_first_byte(rest@, 44, start as int) == c as int);
        }
        let piece = crate::text::sub_vec(rest, start, c);
        let t = crate::text::trim(piece.as_slice());
        let ghost tv = t@;
        proof {
            lemma_word_end_bounds(tv, 0);
        }
        let mut k: usize = 0;
        while k < t.len() && !crate::text::is_ws(t[k])
            invariant
                0 <= k <= tv.len(),
                tv == t@,
                spec_word_end(tv, k as int) == spec_word_end(tv, 0),
            decreases tv.len() - k,
        {
            k = k + 1;
        }
        proof {
            assert(spec_word_end(tv, k as int) == k as int);
        }
        let ghost prev = out.deep_view();
        if k > 0 {
            let tok = crate::text::sub_vec(t.as_slice(), 0, k);
            let mut item = copy_bytes(prefix.as_slice());
            push_all(&mut item, tok.as_slice());
            let ghost iv = item@;
            out.push(item);
            proof {
                assert(out.deep_view() =~~= prev.push(iv));
                assert(tok@ =~= tv.take(k as int));
            }
        }
        proof {
            let w = tv.take(spec_word_end(tv, 0));
            if k > 0 {
                assert(out.deep_view() =~= prev + seq![prefix@ + w]);
            } else {
                assert(w =~= Seq::<u8>::empty());
            }
            assert(spec_comma_tokens(rest@, prefix@, start as int) == (if w.len() > 0 {
                seq![prefix@ + w]
            } else {
                Seq::<Seq<u8>>::empty()
            }) + (if (c as int) < rest@.len() {
                spec_comma_tokens(rest@, prefix@, c + 1)
            } else {
                Seq::<Seq<u8>>::empty()
            }));
        }
        if c == rest.len() {
            done = true;
            proof {
                assert(out.deep_view() =~= oldv + spec_comma_tokens(rest@, prefix@, 0));
            }
        } else {
            start = c + 1;
            proof {
                assert(out.deep_view() + spec_comma_tokens(rest@, prefix@, start as int) =~= oldv
                    + spec_comma_tokens(rest@, prefix@, 0));
            }
        }
    }
}

/// A snippet line as the Python skimmer sees it: trimmed, `#` comment cut.
pub open spec fn spec_clean_py(line: Seq<u8>) -> Seq<u8> {
    let t = crate::text::spec_trim(line);
    let p = crate::util::spec_first_byte(t, 35, 0);
    if p < t.len() {
        crate::text::spec_trim(t.take(p))
    } else {
        t
    }
}

/// One cleaned Python line's contribution to the imports: plain `import`
/// names, or `from`-package-qualified names, aliases dropped.
pub open spec fn spec_py_imports_of(l: Seq<u8>) -> Seq<Seq<u8>> {
    if spec_starts_with(l, ascii_bytes("import "@)) {
        spec_comma_tokens(l.skip(7), Seq::empty(), 0)
    } else if spec_starts_with(l, ascii_bytes("from "@)) {
        let rest = l.skip(5);
        let p = spec_first_sub(rest, ascii_bytes(" import "@), 0);
        if p < rest.len() {
            let pkg = crate::text::spec_trim(rest.take(p));
            spec_comma_tokens(rest.skip(p + 8), pkg.push(46), 0)
        } else {
            Seq::empty()
        }
    } else {
        Seq::empty()
    }
}

/// One cleaned Python line's contribution to the exports: `def` and `class`
/// identifiers.
pub open spec fn spec_py_exports_of(l: Seq<u8>) -> Seq<Seq<u8>> {
    if spec_starts_with(l, ascii_bytes("def "@)) {
        seq![spec_sig_ident(l, ascii_bytes("def "@))]
    } else if spec_starts_with(l, ascii_bytes("class "@)) {
        seq![spec_sig_ident(l, ascii_bytes("class "@))]
    } else {
        Seq::empty()
    }
}

pub open spec fn spec_py_imports(lines: Seq<Seq<u8>>, i: int) -> Seq<Seq<u8>>
    decreases lines.len() - i,
{
    if i < 0 || i >= lines.len() {
        Seq::empty()
    } else {
        spec_py_imports_of(spec_clean_py(lines[i])) + spec_py_imports(lines, i + 1)
    }
}

pub open spec fn spec_py_exports(lines: Seq<Seq<u8>>, i: int) -> Seq<Seq<u8>>
    decreases lines.len() - i,
{
    if i < 0 || i >= lines.len() {
        Seq::empty()
    } else {
        spec_py_exports_of(spec_clean_py(lines[i])) + spec_py_exports(lines, i + 1)
    }
}

/// Skim `import`/`from` and top-level `def`/`class` from Python lines:
/// exactly the per-line collections, deduplicated in first-appearance order.
#[verifier::rlimit(100)]
pub fn skim_python(s: &[u8]) -> (r: (Vec<Vec<u8>>, Vec<Vec<u8>>))
    ensures
        r.0.deep_view() == spec_dedup(spec_py_imports(crate::text::spec_lines(s@), 0)),
        r.1.deep_view() == spec_dedup(spec_py_exports(crate::text::spec_lines(s@), 0)),
        spec_distinct(r.0.deep_view()),
        spec_distinct(r.1.deep_view()),
{
    let lines = crate::text::split_lines(s);
    let ghost lv = lines.deep_view();
    let mut imports: Vec<Vec<u8>> = Vec::new();
    let mut exports: Vec<Vec<u8>> = Vec::new();
    let mut i: usize = 0;
    while i < lines.len()
        invariant
            i <= lines@.len(),
            lv == lines.deep_view(),
            lv.len() == lines@.len(),
            imports.deep_view() + spec_py_imports(lv, i as int) == spec_py_imports(lv, 0),
            exports.deep_view() + spec_py_exports(lv, i as int) == spec_py_exports(lv, 0),
        decreases lines@.len() - i,
    {
        proof {
            reveal_strlit("import ");
            reveal_strlit("from ");
            reveal_strlit(" import ");
            reveal_strlit("def ");
            reveal_strlit("class ");
            assert(lv[i as int] == lines@[i as int]@);
        }
        let t0 = crate::text::trim(lines[i].as_slice());
        let clean = match crate::text::find_byte(t0.as_slice(), 35, 0) {
            Some(p) => {
                proof {
                    crate::util::lemma_first_byte_step(t0@, 35, 0, p as int);
                }
                let code = crate::text::sub_vec(t0.as_slice(), 0, p);
                proof {
                    assert(code@ =~= t0@.take(p as int));
                }
                crate::text::trim(code.as_slice())
            },
            None => {
                proof {
                    crate::util::lemma_first_byte_none(t0@, 35, 0);
                }
                t0
            },
        };
        let l = clean.as_slice();
        let ghost cl = spec_clean_py(lv[i as int]);
        proof {
            assert(l@ == cl);
        }
        let ghost imp0 = imports.deep_view();
        let ghost exp0 = exports.deep_view();
        if starts_with(l, lit("import ").as_slice()) {
            proof {
                assert(ascii_bytes("import "@).len() == 7);
            }
            let rest = sub_vec(l, 7, l.len());
            proof {
                assert(rest@ =~= cl.skip(7));
            }
            let empty_prefix: Vec<u8> = Vec::new();
            push_comma_tokens(&mut imports, rest.as_slice(), &empty_prefix);
            proof {
                assert(imports.deep_view() =~= imp0 + spec_py_imports_of(cl));
            }
        } else if starts_with(l, lit("from ").as_slice()) {
            proof {
                assert(ascii_bytes("from "@).len() == 5);
            }
            let rest = sub_vec(l, 5, l.len());
            proof {
                assert(rest@ =~= cl.skip(5));
            }
            let rlen = rest.len();
            match find_sub(rest.as_slice(), lit(" import ").as_slice(), 0) {
                Some(p) => {
                    proof {
                        lemma_first_sub_at(rest@, ascii_bytes(" import "@), 0, p as int);
                        assert(ascii_bytes(" import "@).len() == 8);
                        assert(p + 8 <= rlen);
                    }
                    let pkg0 = sub_vec(rest.as_slice(), 0, p);
                    proof {
                        assert(pkg0@ =~= rest@.take(p as int));
                    }
                    let mut prefix = crate::text::trim(pkg0.as_slice());
                    prefix.push(46);
                    let rhs = sub_vec(rest.as_slice(), p + 8, rlen);
                    proof {
                        assert(rhs@ =~= rest@.skip(p + 8));
                        assert(prefix@ == crate::text::spec_trim(rest@.take(p as int)).push(46));
                    }
                    push_comma_tokens(&mut imports, rhs.as_slice(), &prefix);
                    proof {
                        assert(imports.deep_view() =~= imp0 + spec_py_imports_of(cl));
                    }
                },
                None => {
                    proof {
                        lemma_first_sub_none(rest@, ascii_bytes(" import "@), 0);
                        assert(spec_py_imports_of(cl) =~= Seq::<Seq<u8>>::empty());
                    }
                },
            }
        } else {
            proof {
                assert(spec_py_imports_of(cl) =~= Seq::<Seq<u8>>::empty());
            }
        }
        if starts_with(l, lit("def ").as_slice()) {
            let idv = sig_ident(l, lit("def ").as_slice());
            let ghost iv = idv@;
            exports.push(idv);
            proof {
                assert(exports.deep_view() =~~= exp0.push(iv));
                assert(exports.deep_view() =~= exp0 + spec_py_exports_of(cl));
            }
        } else if starts_with(l, lit("class ").as_slice()) {
            let idv = sig_ident(l, lit("class ").as_slice());
            let ghost iv = idv@;
            exports.push(idv);
            proof {
                assert(exports.deep_view() =~~= exp0.push(iv));
                assert(exports.deep_view() =~= exp0 + spec_py_exports_of(cl));
            }
        } else {
            proof {
                assert(spec_py_exports_of(cl) =~= Seq::<Seq<u8>>::empty());
            }
        }
        proof {
            assert(spec_py_imports(lv, i as int) == spec_py_imports_of(cl) + spec_py_imports(
                lv,
                i + 1,
            ));
            assert(spec_py_exports(lv, i as int) == spec_py_exports_of(cl) + spec_py_exports(
                lv,
                i + 1,
            ));
            assert(imports.deep_view() + spec_py_imports(lv, i + 1) =~= spec_py_imports(lv, 0));
            assert(exports.deep_view() + spec_py_exports(lv, i + 1) =~= spec_py_exports(lv, 0));
        }
        i = i + 1;
    }
    proof {
        assert(spec_py_imports(lv, lv.len() as int) =~= Seq::<Seq<u8>>::empty());
        assert(spec_py_exports(lv, lv.len() as int) =~= Seq::<Seq<u8>>::empty());
        assert(imports.deep_view() =~= spec_py_imports(lv, 0));
        assert(exports.deep_view() =~= spec_py_exports(lv, 0));
    }
    (dedup_preserve_order(imports), dedup_preserve_order(exports))
}

/// One cleaned JS/TS line's contribution to the imports: the module
/// specifier after ` from `, quotes stripped.
pub open spec fn spec_js_imports_of(l: Seq<u8>) -> Seq<Seq<u8>> {
    if spec_starts_with(l, ascii_bytes("import "@)) {
        let p = spec_first_sub(l, ascii_bytes(" from "@), 0);
        if p < l.len() {
            let q = spec_strip_quotes(l.skip(p + 6));
            if q.len() > 0 {
                seq![q]
            } else {
                Seq::empty()
            }
        } else {
            Seq::empty()
        }
    } else {
        Seq::empty()
    }
}

/// One cleaned JS/TS line's contribution to the exports: the identifier of an
/// `export function`/`class`/`const`/`let`/`type`/`interface` line.
pub open spec fn spec_js_exports_of(l: Seq<u8>) -> Seq<Seq<u8>> {
    if spec_starts_with(l, ascii_bytes("export "@)) {
        let le = crate::text::spec_trim(l.skip(7));
        if spec_starts_with(le, ascii_bytes("function "@)) {
            seq![spec_sig_ident(le, ascii_bytes("function "@))]
        } else if spec_starts_with(le, ascii_bytes("class "@)) {
            seq![spec_sig_ident(le, ascii_bytes("class "@))]
        } else if spec_starts_with(le, ascii_bytes("const "@)) {
            seq![spec_sig_ident(le, ascii_bytes("const "@))]
        } else if spec_starts_with(le, ascii_bytes("let "@)) {
            seq![spec_sig_ident(le, ascii_bytes("let "@))]
        } else if spec_starts_with(le, ascii_bytes("type "@)) {
            seq![spec_sig_ident(le, ascii_bytes("type "@))]
        } else if spec_starts_with(le, ascii_bytes("interface "@)) {
            seq![spec_sig_ident(le, ascii_bytes("interface "@))]
        } else {
            Seq::empty()
        }
    } else {
        Seq::empty()
    }
}

pub open spec fn spec_js_imports(lines: Seq<Seq<u8>>, i: int) -> Seq<Seq<u8>>
    decreases lines.len() - i,
{
    if i < 0 || i >= lines.len() {
        Seq::empty()
    } else {
        spec_js_imports_of(spec_clean_rust(lines[i])) + spec_js_imports(lines, i + 1)
    }
}

pub open spec fn spec_js_exports(lines: Seq<Seq<u8>>, i: int) -> Seq<Seq<u8>>
    decreases lines.len() - i,
{
    if i < 0 || i >= lines.len() {
        Seq::empty()
    } else {
        spec_js_exports_of(spec_clean_rust(lines[i])) + spec_js_exports(lines, i + 1)
    }
}

/// Skim `import ... from` and `export` declarations from JS/TS lines:
/// exactly the per-line collections, deduplicated in first-appearance order.
#[verifier::rlimit(100)]
pub fn skim_js_ts(s: &[u8]) -> (r: (Vec<Vec<u8>>, Vec<Vec<u8>>))
    ensures
        r.0.deep_view() == spec_dedup(spec_js_imports(crate::text::spec_lines(s@), 0)),
        r.1.deep_view() == spec_dedup(spec_js_exports(crate::text::spec_lines(s@), 0)),
        spec_distinct(r.0.deep_view()),
        spec_distinct(r.1.deep_view()),
{
    let lines = crate::text::split_lines(s);
    let ghost lv = lines.deep_view();
    let mut imports: Vec<Vec<u8>> = Vec::new();
    let mut exports: Vec<Vec<u8>> = Vec::new();
    let mut i: usize = 0;
    while i < lines.len()
        invariant
            i <= lines@.len(),
            lv == lines.deep_view(),
            lv.len() == lines@.len(),
            imports.deep_view() + spec_js_imports(lv, i as int) == spec_js_imports(lv, 0),
            exports.deep_view() + spec_js_exports(lv, i as int) == spec_js_exports(lv, 0),
        decreases lines@.len() - i,
    {
        proof {
            reveal_strlit("import ");
            reveal_strlit(" from ");
            reveal_strlit("export ");
            reveal_strlit("function ");
            reveal_strlit("class ");
            reveal_strlit("const ");
            reveal_strlit("let ");
            reveal_strlit("type ");
            reveal_strlit("interface ");
            assert(lv[i as int] == lines@[i as int]@);
        }
        let t0 = crate::text::trim(lines[i].as_slice());
        let clean = trim_inline_comment(t0.as_slice());
        let l = clean.as_slice();
        let ghost cl = spec_clean_rust(lv[i as int]);
        proof {
            assert(l@ == cl);
        }
        let ghost imp0 = imports.deep_view();
        let ghost exp0 = exports.deep_view();
        if starts_with(l, lit("import ").as_slice()) {
            let llen = l.len();
            match find_sub(l, lit(" from ").as_slice(), 0) {
                Some(p) => {
                    proof {
                        lemma_first_sub_at(cl, ascii_bytes(" from "@), 0, p as int);
                        assert(ascii_bytes(" from "@).len() == 6);
                        assert(p + 6 <= llen);
                    }
                    let tail = sub_vec(l, p + 6, llen);
                    proof {
                        assert(tail@ =~= cl.skip(p + 6));
                    }
                    let pkg = strip_quotes(tail.as_slice());
                    if pkg.len() > 0 {
                        let ghost pv = pkg@;
                        imports.push(pkg);
                        proof {
                            assert(imports.deep_view() =~~= imp0.push(pv));
                            assert(imports.deep_view() =~= imp0 + spec_js_imports_of(cl));
                        }
                    } else {
                        proof {
                            assert(spec_js_imports_of(cl) =~= Seq::<Seq<u8>>::empty());
                        }
                    }
                },
                None => {
                    proof {
                        lemma_first_sub_none(cl, ascii_bytes(" from "@), 0);
                        assert(spec_js_imports_of(cl) =~= Seq::<Seq<u8>>::empty());
                    }
                },
            }
        } else {
            proof {
                assert(spec_js_imports_of(cl) =~= Seq::<Seq<u8>>::empty());
            }
        }
        if starts_with(l, lit("export ").as_slice()) {
            proof {
                assert(ascii_bytes("export "@).len() == 7);
            }
            let le0 = sub_vec(l, 7, l.len());
            proof {
                assert(le0@ =~= cl.skip(7));
            }
            let le = crate::text::trim(le0.as_slice());
            let found: Option<Vec<u8>> = if starts_with(le.as_slice(), lit("function ").as_slice()) {
                Some(sig_ident(le.as_slice(), lit("function ").as_slice()))
            } else if starts_with(le.as_slice(), lit("class ").as_slice()) {
                Some(sig_ident(le.as_slice(), lit("class ").as_slice()))
            } else if starts_with(le.as_slice(), lit("const ").as_slice()) {
                Some(sig_ident(le.as_slice(), lit("const ").as_slice()))
            } else if starts_with(le.as_slice(), lit("let ").as_slice()) {
                Some(sig_ident(le.as_slice(), lit("let ").as_slice()))
            } else if starts_with(le.as_slice(), lit("type ").as_slice()) {
                Some(sig_ident(le.as_slice(), lit("type ").as_slice()))
            } else if starts_with(le.as_slice(), lit("interface ").as_slice()) {
                Some(sig_ident(le.as_slice(), lit("interface ").as_slice()))
            } else {
                None
            };
            match found {
                Some(idv) => {
                    let ghost iv = idv@;
                    exports.push(idv);
                    proof {
                        assert(exports.deep_view() =~~= exp0.push(iv));
                        assert(spec_js_exports_of(cl) =~= seq![iv]);
                        assert(exports.deep_view() =~= exp0 + spec_js_exports_of(cl));
                    }
                },
                None => {
                    proof {
                        assert(spec_js_exports_of(cl) =~= Seq::<Seq<u8>>::empty());
                    }
                },
            }
        } else {
            proof {
                assert(spec_js_exports_of(cl) =~= Seq::<Seq<u8>>::empty());
            }
        }
        proof {
            assert(spec_js_imports(lv, i as int) == spec_js_imports_of(cl) + spec_js_imports(
                lv,
                i + 1,
            ));
            assert(spec_js_exports(lv, i as int) == spec_js_exports_of(cl) + spec_js_exports(
                lv,
                i + 1,
            ));
            assert(imports.deep_view() + spec_js_imports(lv, i + 1) =~= spec_js_imports(lv, 0));
            assert(exports.deep_view() + spec_js_exports(lv, i + 1) =~= spec_js_exports(lv, 0));
        }
        i = i + 1;
    }
    proof {
        assert(spec_js_imports(lv, lv.len() as int) =~= Seq::<Seq<u8>>::empty());
        assert(spec_js_exports(lv, lv.len() as int) =~= Seq::<Seq<u8>>::empty());
        assert(imports.deep_view() =~= spec_js_imports(lv, 0));
        assert(exports.deep_view() =~= spec_js_exports(lv, 0));
    }
    (dedup_preserve_order(imports), dedup_preserve_order(exports))
}

/// Cheap import/export skimming over snippet lines, dispatched on the
/// lowercased language label; unknown languages yield empty lists.
pub fn skim_symbols(snippet: &[u8], lang: &[u8]) -> (r: (Vec<Vec<u8>>, Vec<Vec<u8>>))
    ensures
        ({
            let l = crate::text::spec_lower_seq(lang@);
            let lines = crate::text::spec_lines(snippet@);
            &&& (l == ascii_bytes("rust"@) ==> r.0.deep_view() == spec_dedup(
                spec_rust_imports(lines, 0),
            ) && r.1.deep_view() == spec_dedup(spec_rust_exports(lines, 0)))
            &&& (l == ascii_bytes("python"@) ==> r.0.deep_view() == spec_dedup(
                spec_py_imports(lines, 0),
            ) && r.1.deep_view() == spec_dedup(spec_py_exports(lines, 0)))
            &&& ((l == ascii_bytes("ts"@) || l == ascii_bytes("typescript"@) || l == ascii_bytes(
                "js"@,
            ) || l == ascii_bytes("javascript"@)) ==> r.0.deep_view() == spec_dedup(
                spec_js_imports(lines, 0),
            ) && r.1.deep_view() == spec_dedup(spec_js_exports(lines, 0)))
            &&& (!(l == ascii_bytes("rust"@) || l == ascii_bytes("python"@) || l == ascii_bytes(
                "ts"@,
            ) || l == ascii_bytes("typescript"@) || l == ascii_bytes("js"@) || l == ascii_bytes(
                "javascript"@,
            )) ==> r.0.deep_view() == Seq::<Seq<u8>>::empty() && r.1.deep_view() == Seq::<
                Seq<u8>,
            >::empty())
        }),
        spec_distinct(r.0.deep_view()),
        spec_distinct(r.1.deep_view()),
{
    proof {
        reveal_strlit("rust");
        reveal_strlit("python");
        reveal_strlit("ts");
        reveal_strlit("typescript");
        reveal_strlit("js");
        reveal_strlit("javascript");
        assert(ascii_bytes("rust"@).len() == 4);
        assert(ascii_bytes("python"@).len() == 6);
        assert(ascii_bytes("ts"@).len() == 2);
        assert(ascii_bytes("typescript"@).len() == 10);
        assert(ascii_bytes("js"@).len() == 2);
        assert(ascii_bytes("javascript"@).len() == 10);
        assert(ascii_bytes("ts"@) != ascii_bytes("js"@)) by {
            assert(ascii_bytes("ts"@)[0] == 116);
            assert(ascii_bytes("js"@)[0] == 106);
        }
        assert(ascii_bytes("typescript"@) != ascii_bytes("javascript"@)) by {
            assert(ascii_bytes("typescript"@)[0] == 116);
            assert(ascii_bytes("javascript"@)[0] == 106);
        }
    }
    let lv = to_lower(lang);
    let l = lv.as_slice();
    if eq_bytes(l, lit("rust").as_slice()) {
        skim_rust(snippet)
    } else if eq_bytes(l, lit("python").as_slice()) {
        skim_python(snippet)
    } else if eq_bytes(l, lit("ts").as_slice()) || eq_bytes(l, lit("typescript").as_slice())
        || eq_bytes(l, lit("js").as_slice()) || eq_bytes(l, lit("javascript").as_slice()) {
        skim_js_ts(snippet)
    } else {
        let a: Vec<Vec<u8>> = Vec::new();
        let b: Vec<Vec<u8>> = Vec::new();
        proof {
            assert(a.deep_view() =~= Seq::<Seq<u8>>::empty());
            assert(b.deep_view() =~= Seq::<Seq<u8>>::empty());
        }
        (a, b)
    }
}

/// Token text tightened the way the declaration views print it: spacing
/// around brackets, commas, and path separators collapsed.
pub open spec fn spec_normalize_token_string(s: Seq<u8>) -> Seq<u8> {
    let a1 = crate::text::spec_replace_all(s, 0, ascii_bytes(" < "@), ascii_bytes("<"@));
    let a2 = crate::text::spec_replace_all(a1, 0, ascii_bytes(" > "@), ascii_bytes(">"@));
    let a3 = crate::text::spec_replace_all(a2, 0, ascii_bytes(" ( "@), ascii_bytes("("@));
    let a4 = crate::text::spec_replace_all(a3, 0, ascii_bytes(" ) "@), ascii_bytes(")"@));
    let a5 = crate::text::spec_replace_all(a4, 0, ascii_bytes(" [ "@), ascii_bytes("["@));
    let a6 = crate::text::spec_replace_all(a5, 0, ascii_bytes(" ] "@), ascii_bytes("]"@));
    let a7 = crate::text::spec_replace_all(a6, 0, ascii_bytes(" , "@), ascii_bytes(", "@));
    let a8 = crate::text::spec_replace_all(a7, 0, ascii_bytes(" : : "@), ascii_bytes("::"@));
    let a9 = crate::text::spec_replace_all(a8, 0, ascii_bytes(" & '"@), ascii_bytes("&'"@));
    let a10 = crate::text::spec_replace_all(a9, 0, ascii_bytes(" & "@), ascii_bytes(" &"@));
    let a11 = crate::text::spec_replace_all(a10, 0, ascii_bytes(" :: "@), ascii_bytes("::"@));
    let a12 = crate::text::spec_replace_all(a11, 0, ascii_bytes(" = > "@), ascii_bytes("=>"@));
    let a13 = crate::text::spec_replace_all(a12, 0, ascii_bytes(" | "@), ascii_bytes("|"@));
    let a14 = crate::text::spec_replace_all(a13, 0, ascii_bytes(" ;"@), ascii_bytes(";"@));
    let a15 = crate::text::spec_replace_all(a14, 0, ascii_bytes(" ,"@), ascii_bytes(","@));
    crate::text::spec_replace_all(a15, 0, ascii_bytes(" :"@), ascii_bytes(":"@))
}

/// Collapse printer spacing in a token string.
pub fn normalize_token_string(s: &[u8]) -> (r: Vec<u8>)
    ensures
        r@ == spec_normalize_token_string(s@),
{
    proof {
        reveal_strlit(" < ");
        reveal_strlit("<");
        reveal_strlit(" > ");
        reveal_strlit(">");
        reveal_strlit(" ( ");
        reveal_strlit("(");
        reveal_strlit(" ) ");
        reveal_strlit(")");
        reveal_strlit(" [ ");
        reveal_strlit("[");
        reveal_strlit(" ] ");
        reveal_strlit("]");
        reveal_strlit(" , ");
        reveal_strlit(", ");
        reveal_strlit(" : : ");
        reveal_strlit("::");
        reveal_strlit(" & '");
        reveal_strlit("&'");
        reveal_strlit(" & ");
        reveal_strlit(" &");
        reveal_strlit(" :: ");
        reveal_strlit(" = > ");
        reveal_strlit("=>");
        reveal_strlit(" | ");
        reveal_strlit("|");
        reveal_strlit(" ;");
        reveal_strlit(";");
        reveal_strlit(" ,");
        reveal_strlit(",");
        reveal_strlit(" :");
        reveal_strlit(":");
    }
    let a1 = crate::text::replace_all(s, lit(" < ").as_slice(), lit("<").as_slice());
    let a2 = crate::text::replace_all(a1.as_slice(), lit(" > ").as_slice(), lit(">").as_slice());
    let a3 = crate::text::replace_all(a2.as_slice(), lit(" ( ").as_slice(), lit("(").as_slice());
    let a4 = crate::text::replace_all(a3.as_slice(), lit(" ) ").as_slice(), lit(")").as_slice());
    let a5 = crate::text::replace_all(a4.as_slice(), lit(" [ ").as_slice(), lit("[").as_slice());
    let a6 = crate::text::replace_all(a5.as_slice(), lit(" ] ").as_slice(), lit("]").as_slice());
    let a7 = crate::text::replace_all(a6.as_slice(), lit(" , ").as_slice(), lit(", ").as_slice());
    let a8 = crate::text::replace_all(
        a7.as_slice(),
        lit(" : : ").as_slice(),
        lit("::").as_slice(),
    );
    let a9 = crate::text::replace_all(a8.as_slice(), lit(" & '").as_slice(), lit("&'").as_slice());
    let a10 = crate::text::replace_all(a9.as_slice(), lit(" & ").as_slice(), lit(" &").as_slice());
    let a11 = crate::text::replace_all(
        a10.as_slice(),
        lit(" :: ").as_slice(),
        lit("::").as_slice(),
    );
    let a12 = crate::text::replace_all(
        a11.as_slice(),
        lit(" = > ").as_slice(),
        lit("=>").as_slice(),
    );
    let a13 = crate::text::replace_all(a12.as_slice(), lit(" | ").as_slice(), lit("|").as_slice());
    let a14 = crate::text::replace_all(a13.as_slice(), lit(" ;").as_slice(), lit(";").as_slice());
    let a15 = crate::text::replace_all(a14.as_slice(), lit(" ,").as_slice(), lit(",").as_slice());
    crate::text::replace_all(a15.as_slice(), lit(" :").as_slice(), lit(":").as_slice())
}

} // verus!
