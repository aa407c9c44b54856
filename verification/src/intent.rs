//! Offline summary engine: a short, high-signal one-liner per file, decided
//! by a fixed ladder of path and snippet signals, falling back to the file's
//! own documentation and finally to its first nonempty line.
use vstd::prelude::*;

use crate::helpers::spec_slashes;
use crate::text::{
    ascii_bytes, contains_sub, ends_with, eq_bytes, lit, spec_contains, spec_ends_with,
    spec_lines, spec_lower_seq, spec_starts_with, spec_strip_repeat, spec_trim, spec_trim_start,
    split_lines, starts_with, strip_repeat, sub_vec, to_lower, trim,
};

verus! {

/// Size of the snippet window the summary engine looks at.
pub const INTENT_SCAN_BYTES: usize = 32768;

/// The documentation headline of a text: leading `//!`/`///` doc comments
/// first; then, fence-aware, the first heading or first plain prose line;
/// finally any line that reads like a sentence.
pub open spec fn spec_extract_doc_summary(s: Seq<u8>) -> Option<Seq<u8>> {
    let lines = spec_lines(s);
    if spec_doc_pass0(lines, 0) is Some {
        spec_doc_pass0(lines, 0)
    } else if spec_doc_heading(lines, 0, false) is Some {
        spec_doc_heading(lines, 0, false)
    } else if spec_doc_prose(lines, 0, false) is Some {
        spec_doc_prose(lines, 0, false)
    } else {
        spec_doc_pass2(lines, 0)
    }
}

/// Leading doc comments: the first nonempty `//!`/`///` message near the top,
/// stopping at the first non-comment code line.
pub open spec fn spec_doc_pass0(lines: Seq<Seq<u8>>, i: int) -> Option<Seq<u8>>
    decreases lines.len() - i,
{
    if i < 0 || i >= lines.len() || i >= 256 {
        None
    } else {
        let t = spec_trim_start(lines[i]);
        if spec_starts_with(t, ascii_bytes("//!"@)) || spec_starts_with(t, ascii_bytes("///"@)) {
            let msg = spec_trim(
                spec_strip_repeat(spec_strip_repeat(t, ascii_bytes("//!"@)), ascii_bytes("///"@)),
            );
            if msg.len() > 0 {
                Some(msg)
            } else {
                spec_doc_pass0(lines, i + 1)
            }
        } else if t.len() > 0 && !spec_starts_with(t, ascii_bytes("//"@)) && !spec_starts_with(
            t,
            ascii_bytes("#!"@),
        ) {
            None
        } else {
            spec_doc_pass0(lines, i + 1)
        }
    }
}

/// Fence-aware skim for the first heading outside fenced code.
pub open spec fn spec_doc_heading(lines: Seq<Seq<u8>>, i: int, in_fence: bool) -> Option<Seq<u8>>
    decreases lines.len() - i,
{
    if i < 0 || i >= lines.len() || i >= 512 {
        None
    } else {
        let t = spec_trim(lines[i]);
        if spec_starts_with(t, ascii_bytes("```"@)) {
            spec_doc_heading(lines, i + 1, !in_fence)
        } else if in_fence {
            spec_doc_heading(lines, i + 1, in_fence)
        } else {
            let h1 = spec_trim(spec_strip_repeat(t, ascii_bytes("#"@)));
            if spec_starts_with(t, ascii_bytes("# "@)) && h1.len() > 0 {
                Some(h1)
            } else {
                spec_doc_heading(lines, i + 1, in_fence)
            }
        }
    }
}

/// Fence-aware skim for the first plain prose line of more than two
/// characters outside fenced code, tried only when no heading exists.
pub open spec fn spec_doc_prose(lines: Seq<Seq<u8>>, i: int, in_fence: bool) -> Option<Seq<u8>>
    decreases lines.len() - i,
{
    if i < 0 || i >= lines.len() || i >= 512 {
        None
    } else {
        let t = spec_trim(lines[i]);
        if spec_starts_with(t, ascii_bytes("```"@)) {
            spec_doc_prose(lines, i + 1, !in_fence)
        } else if in_fence {
            spec_doc_prose(lines, i + 1, in_fence)
        } else if t.len() > 2 && !spec_starts_with(t, ascii_bytes("#!"@)) && !spec_starts_with(
            t,
            ascii_bytes("//"@),
        ) && !spec_starts_with(t, ascii_bytes("/*"@)) {
            Some(t)
        } else {
            spec_doc_prose(lines, i + 1, in_fence)
        }
    }
}

/// Last resort: the first line that reads like a sentence.
pub open spec fn spec_doc_pass2(lines: Seq<Seq<u8>>, i: int) -> Option<Seq<u8>>
    decreases lines.len() - i,
{
    if i < 0 || i >= lines.len() || i >= 256 {
        None
    } else {
        let t = spec_trim(lines[i]);
        if t.len() > 6 && (t[t.len() - 1] == 46 || spec_contains(t, ascii_bytes(" "@))) {
            Some(t)
        } else {
            spec_doc_pass2(lines, i + 1)
        }
    }
}

/// Extract a succinct doc summary from module or file documentation.
#[verifier::rlimit(100)]
pub fn extract_doc_summary(s: &[u8]) -> (r: Option<Vec<u8>>)
    ensures
        match r {
            Some(v) => spec_extract_doc_summary(s@) == Some(v@) && v@.len() > 0,
            None => spec_extract_doc_summary(s@) is None,
        },
{
    let lines = split_lines(s);
    let ghost lv = lines.deep_view();
    // leading doc comments
    let mut i: usize = 0;
    let mut code_hit = false;
    while i < lines.len() && i < 256 && !code_hit
        invariant
            i <= lv.len(),
            lv == lines.deep_view(),
            lv == spec_lines(s@),
            lv.len() == lines@.len(),
            code_hit ==> spec_doc_pass0(lv, 0) is None,
            !code_hit ==> spec_doc_pass0(lv, i as int) == spec_doc_pass0(lv, 0),
        decreases lv.len() - i + if code_hit {
            0int
        } else {
            1int
        },
    {
        proof {
            reveal_strlit("//!");
            reveal_strlit("///");
            reveal_strlit("//");
            reveal_strlit("#!");
            assert(lv[i as int] == lines@[i as int]@);
        }
        let t = trim_start_vec(lines[i].as_slice());
        if starts_with(t.as_slice(), lit("//!").as_slice()) || starts_with(
            t.as_slice(),
            lit("///").as_slice(),
        ) {
            let s1 = strip_repeat(t.as_slice(), lit("//!").as_slice());
            let s2 = strip_repeat(s1.as_slice(), lit("///").as_slice());
            let msg = trim(s2.as_slice());
            if msg.len() > 0 {
                proof {
                    assert(spec_doc_pass0(lv, i as int) == Some(msg@));
                }
                return Some(msg);
            }
            i = i + 1;
        } else if t.len() > 0 && !starts_with(t.as_slice(), lit("//").as_slice()) && !starts_with(
            t.as_slice(),
            lit("#!").as_slice(),
        ) {
            proof {
                assert(spec_doc_pass0(lv, i as int) is None);
            }
            code_hit = true;
        } else {
            i = i + 1;
        }
    }
    proof {
        assert(spec_doc_pass0(lv, 0) is None);
    }
    // fence-aware heading scan
    let mut j: usize = 0;
    let mut in_fence = false;
    while j < lines.len() && j < 512
        invariant
            j <= lv.len(),
            lv == lines.deep_view(),
            lv == spec_lines(s@),
            lv.len() == lines@.len(),
            spec_doc_pass0(lv, 0) is None,
            spec_doc_heading(lv, j as int, in_fence) == spec_doc_heading(lv, 0, false),
        decreases lv.len() - j,
    {
        proof {
            reveal_strlit("```");
            reveal_strlit("#");
            reveal_strlit("# ");
            assert(lv[j as int] == lines@[j as int]@);
        }
        let t = trim(lines[j].as_slice());
        if starts_with(t.as_slice(), lit("```").as_slice()) {
            in_fence = !in_fence;
        } else if in_fence {
        } else {
            let h0 = strip_repeat(t.as_slice(), lit("#").as_slice());
            let h1 = trim(h0.as_slice());
            if starts_with(t.as_slice(), lit("# ").as_slice()) && h1.len() > 0 {
                proof {
                    assert(spec_doc_heading(lv, j as int, in_fence) == Some(h1@));
                }
                return Some(h1);
            }
        }
        j = j + 1;
    }
    proof {
        assert(spec_doc_heading(lv, 0, false) is None);
    }
    // fence-aware prose scan
    let mut p: usize = 0;
    let mut pf = false;
    while p < lines.len() && p < 512
        invariant
            p <= lv.len(),
            lv == lines.deep_view(),
            lv == spec_lines(s@),
            lv.len() == lines@.len(),
            spec_doc_pass0(lv, 0) is None,
            spec_doc_heading(lv, 0, false) is None,
            spec_doc_prose(lv, p as int, pf) == spec_doc_prose(lv, 0, false),
        decreases lv.len() - p,
    {
        proof {
            reveal_strlit("```");
            reveal_strlit("#!");
            reveal_strlit("//");
            reveal_strlit("/*");
            assert(lv[p as int] == lines@[p as int]@);
        }
        let t = trim(lines[p].as_slice());
        if starts_with(t.as_slice(), lit("```").as_slice()) {
            pf = !pf;
        } else if pf {
        } else if t.len() > 2 && !starts_with(t.as_slice(), lit("#!").as_slice()) && !starts_with(
            t.as_slice(),
            lit("//").as_slice(),
        ) && !starts_with(t.as_slice(), lit("/*").as_slice()) {
            proof {
                assert(spec_doc_prose(lv, p as int, pf) == Some(t@));
            }
            return Some(t);
        }
        p = p + 1;
    }
    proof {
        assert(spec_doc_prose(lv, 0, false) is None);
    }
    // sentence-like fallback
    let mut k: usize = 0;
    while k < lines.len() && k < 256
        invariant
            k <= lv.len(),
            lv == lines.deep_view(),
            lv == spec_lines(s@),
            lv.len() == lines@.len(),
            spec_doc_pass0(lv, 0) is None,
            spec_doc_heading(lv, 0, false) is None,
            spec_doc_prose(lv, 0, false) is None,
            spec_doc_pass2(lv, k as int) == spec_doc_pass2(lv, 0),
        decreases lv.len() - k,
    {
        proof {
            reveal_strlit(" ");
            assert(lv[k as int] == lines@[k as int]@);
        }
        let t = trim(lines[k].as_slice());
        if t.len() > 6 && (t[t.len() - 1] == 46 || contains_sub(t.as_slice(), lit(" ").as_slice()))
        {
            proof {
                assert(spec_doc_pass2(lv, k as int) == Some(t@));
            }
            return Some(t);
        }
        k = k + 1;
    }
    proof {
        assert(spec_doc_pass2(lv, 0) is None);
    }
    None
}

/// Copy with leading ASCII whitespace removed.
fn trim_start_vec(s: &[u8]) -> (r: Vec<u8>)
    ensures
        r@ == spec_trim_start(s@),
{
    let mut a: usize = 0;
    while a < s.len() && crate::text::is_ws(s[a])
        invariant
            a <= s@.len(),
            forall|j: int| 0 <= j < a ==> crate::text::spec_is_ws(s@[j]),
        decreases s@.len() - a,
    {
        a = a + 1;
    }
    proof {
        crate::text::lemma_trim_start_at(s@, a as int);
        if a < s@.len() {
            assert(s@.skip(a as int)[0] == s@[a as int]);
            assert(spec_trim_start(s@.skip(a as int)) == s@.skip(a as int));
        } else {
            assert(s@.skip(a as int) =~= Seq::<u8>::empty());
            assert(spec_trim_start(s@) =~= s@.skip(a as int));
        }
    }
    let r = sub_vec(s, a, s.len());
    proof {
        assert(r@ =~= s@.skip(a as int));
    }
    r
}

/// The first nonempty line of a text, trimmed.
pub open spec fn spec_first_nonempty(lines: Seq<Seq<u8>>, i: int) -> Option<Seq<u8>>
    decreases lines.len() - i,
{
    if i < 0 || i >= lines.len() {
        None
    } else {
        let t = spec_trim(lines[i]);
        if t.len() > 0 {
            Some(t)
        } else {
            spec_first_nonempty(lines, i + 1)
        }
    }
}

/// First nonempty line, trimmed.
pub fn first_non_empty_line(s: &[u8]) -> (r: Option<Vec<u8>>)
    ensures
        match r {
            Some(v) => spec_first_nonempty(spec_lines(s@), 0) == Some(v@) && v@.len() > 0,
            None => spec_first_nonempty(spec_lines(s@), 0) is None,
        },
{
    let lines = split_lines(s);
    let ghost lv = lines.deep_view();
    let mut i: usize = 0;
    while i < lines.len()
        invariant
            i <= lv.len(),
            lv == lines.deep_view(),
            lv == spec_lines(s@),
            lv.len() == lines@.len(),
            spec_first_nonempty(lv, i as int) == spec_first_nonempty(lv, 0),
        decreases lv.len() - i,
    {
        proof {
            assert(lv[i as int] == lines@[i as int]@);
        }
        let t = trim(lines[i].as_slice());
        if t.len() > 0 {
            proof {
                assert(spec_first_nonempty(lv, i as int) == Some(t@));
            }
            return Some(t);
        }
        i = i + 1;
    }
    None
}


/// The fixed one-line summary the ladder assigns, or the doc/prose fallback.
///
/// Order matters: module short-circuits, then config and docs files, then
/// entrypoints, tests, module aggregators, feature heuristics, language
/// nudges, the documentation headline, and the first nonempty line.
pub open spec fn spec_guess_summary(path: Seq<u8>, snippet: Seq<u8>, lang: Seq<u8>) -> Seq<u8> {
    let pl = spec_lower_seq(spec_slashes(path));
    let scan = spec_window_bytes(snippet);
    let sl = spec_lower_seq(scan);
    let ll = spec_lower_seq(lang);
    if spec_ends_with(pl, ascii_bytes("map_view.rs"@)) {
        ascii_bytes("Builds semantic project map (markdown)."@)
    } else if spec_ends_with(pl, ascii_bytes("tree_view.rs"@)) {
        ascii_bytes("Builds structural project tree (markdown)."@)
    } else if spec_ends_with(pl, ascii_bytes("chunker.rs"@)) {
        ascii_bytes("Splits indexed files into paste chunks."@)
    } else if spec_ends_with(pl, ascii_bytes("scan.rs"@)) {
        ascii_bytes("Repo scanner: walk, hash, detect, snippet, summarize."@)
    } else if spec_ends_with(pl, ascii_bytes("snippet.rs"@)) {
        ascii_bytes("Snippet extractor: model-optimized excerpts."@)
    } else if spec_ends_with(pl, ascii_bytes("helpers.rs"@)) {
        ascii_bytes("Formatting and shared helper utilities."@)
    } else if spec_ends_with(pl, ascii_bytes("commands.rs"@)) {
        ascii_bytes("CLI subcommands wiring and user-facing flows."@)
    } else if spec_ends_with(pl, ascii_bytes("intent.rs"@)) {
        ascii_bytes("Intent classifier: offline file purpose inference."@)
    } else if spec_ends_with(pl, ascii_bytes("cargo.toml"@)) {
        ascii_bytes("Cargo manifest / workspace configuration."@)
    } else if spec_ends_with(pl, ascii_bytes("package.json"@)) {
        ascii_bytes("Node package manifest (scripts/deps)."@)
    } else if spec_ends_with(pl, ascii_bytes("pyproject.toml"@)) {
        ascii_bytes("Python project configuration (build/deps/tooling)."@)
    } else if spec_ends_with(pl, ascii_bytes("requirements.txt"@)) {
        ascii_bytes("Python dependencies locklist."@)
    } else if spec_ends_with(pl, ascii_bytes("dockerfile"@)) || spec_contains(
        pl,
        ascii_bytes("/docker/"@),
    ) {
        ascii_bytes("Container build definition (Dockerfile)."@)
    } else if spec_ends_with(pl, ascii_bytes("makefile"@)) || spec_ends_with(
        pl,
        ascii_bytes(".mk"@),
    ) {
        ascii_bytes("Make build targets and automation."@)
    } else if spec_ends_with(pl, ascii_bytes("readme.md"@)) || spec_ends_with(
        pl,
        ascii_bytes("readme"@),
    ) {
        ascii_bytes("Project README / documentation."@)
    } else if spec_ends_with(pl, ascii_bytes("license"@)) || spec_ends_with(
        pl,
        ascii_bytes("license.md"@),
    ) {
        ascii_bytes("Project license."@)
    } else if spec_contains(pl, ascii_bytes(".github/workflows/"@)) || spec_contains(
        pl,
        ascii_bytes("/.gitlab-ci"@),
    ) || spec_contains(pl, ascii_bytes("/.circleci/"@)) {
        ascii_bytes("CI pipeline/workflow configuration."@)
    } else if spec_ends_with(pl, ascii_bytes(".yml"@)) || spec_ends_with(pl, ascii_bytes(".yaml"@)) {
        ascii_bytes("YAML configuration file."@)
    } else if spec_ends_with(pl, ascii_bytes(".toml"@)) {
        ascii_bytes("TOML configuration file."@)
    } else if spec_ends_with(pl, ascii_bytes(".env"@)) {
        ascii_bytes("Environment variables file."@)
    } else if spec_ends_with(pl, ascii_bytes("src/main.rs"@)) || spec_contains(
        pl,
        ascii_bytes("/bin/"@),
    ) || spec_contains(sl, ascii_bytes("fn main("@)) {
        ascii_bytes("Entrypoint for this Rust binary."@)
    } else if ll == ascii_bytes("python"@) && spec_contains(
        sl,
        ascii_bytes("if __name__ == '__main__'"@),
    ) {
        ascii_bytes("Python script entrypoint."@)
    } else if spec_ends_with(pl, ascii_bytes("lib.rs"@)) {
        ascii_bytes("Root library file for this Rust crate."@)
    } else if spec_contains(pl, ascii_bytes("/tests"@)) || spec_contains(pl, ascii_bytes("/test"@))
        || spec_ends_with(pl, ascii_bytes("_test.rs"@)) || spec_ends_with(
        pl,
        ascii_bytes(".spec.ts"@),
    ) || spec_ends_with(pl, ascii_bytes(".spec.js"@)) || spec_contains(
        sl,
        ascii_bytes("#[test]"@),
    ) || spec_contains(sl, ascii_bytes("pytest"@)) {
        ascii_bytes("Test module or spec suite."@)
    } else if spec_ends_with(pl, ascii_bytes("mod.rs"@)) || spec_starts_with(
        spec_trim_start(sl),
        ascii_bytes("mod "@),
    ) {
        ascii_bytes("Module definition / namespace aggregator."@)
    } else if spec_contains(pl, ascii_bytes("/ui"@)) || spec_contains(pl, ascii_bytes("/panel"@))
        || spec_contains(pl, ascii_bytes("/editor"@)) || spec_contains(pl, ascii_bytes("/view"@))
        || spec_contains(pl, ascii_bytes("/component"@)) || spec_contains(
        pl,
        ascii_bytes("/widget"@),
    ) || spec_contains(pl, ascii_bytes("/screen"@)) || spec_contains(pl, ascii_bytes("/page"@)) {
        ascii_bytes("User interface / presentation layer."@)
    } else if spec_contains(pl, ascii_bytes("/core"@)) || spec_contains(pl, ascii_bytes("/engine"@))
        || spec_contains(pl, ascii_bytes("/domain"@)) || spec_contains(pl, ascii_bytes("/model"@))
        || spec_contains(pl, ascii_bytes("/service"@)) {
        ascii_bytes("Core domain logic / engine layer."@)
    } else if spec_contains(sl, ascii_bytes("use clap"@)) || spec_contains(
        sl,
        ascii_bytes("use structopt"@),
    ) || spec_contains(sl, ascii_bytes("use argh"@)) || spec_contains(pl, ascii_bytes("/cli"@)) {
        ascii_bytes("Command-line interface."@)
    } else if spec_contains(sl, ascii_bytes("axum::"@)) || spec_contains(
        sl,
        ascii_bytes("actix"@),
    ) || spec_contains(sl, ascii_bytes("rocket::"@)) || spec_contains(sl, ascii_bytes("warp::"@))
        || (spec_contains(sl, ascii_bytes("router"@)) && (spec_contains(
        pl,
        ascii_bytes("/http"@),
    ) || spec_contains(pl, ascii_bytes("/server"@)) || spec_contains(pl, ascii_bytes("/api"@)))) {
        ascii_bytes("HTTP server / routing."@)
    } else if spec_contains(sl, ascii_bytes("sqlx::"@)) || spec_contains(
        sl,
        ascii_bytes("diesel::"@),
    ) || spec_contains(sl, ascii_bytes("postgres"@)) || spec_contains(
        sl,
        ascii_bytes("mongodb"@),
    ) || spec_contains(sl, ascii_bytes("redis"@)) || spec_contains(pl, ascii_bytes("/db"@))
        || spec_contains(pl, ascii_bytes("/repo"@)) || spec_contains(
        pl,
        ascii_bytes("/repository"@),
    ) || spec_contains(pl, ascii_bytes("/persistence"@)) {
        ascii_bytes("Database access / persistence layer."@)
    } else if spec_contains(sl, ascii_bytes("tokio::"@)) || spec_contains(
        sl,
        ascii_bytes("async fn"@),
    ) || spec_contains(sl, ascii_bytes("std::sync"@)) || spec_contains(sl, ascii_bytes("mpsc"@))
        || spec_contains(sl, ascii_bytes("spawn("@)) {
        ascii_bytes("Concurrency / async orchestration."@)
    } else if spec_contains(sl, ascii_bytes("std::fs"@)) || spec_contains(
        sl,
        ascii_bytes("std::io"@),
    ) || spec_contains(pl, ascii_bytes("/io"@)) || spec_contains(pl, ascii_bytes("/fs"@)) {
        ascii_bytes("Filesystem / IO utilities."@)
    } else if ll == ascii_bytes("rust"@) && spec_contains(pl, ascii_bytes("/types"@)) {
        ascii_bytes("Type definitions / data models."@)
    } else if ll == ascii_bytes("rust"@) && spec_contains(pl, ascii_bytes("/util"@)) {
        ascii_bytes("Utility helpers for the crate."@)
    } else if spec_extract_doc_summary(scan) is Some {
        spec_extract_doc_summary(scan)->Some_0
    } else if spec_first_nonempty(spec_lines(scan), 0) is Some {
        spec_first_nonempty(spec_lines(scan), 0)->Some_0
    } else {
        ascii_bytes("No summary available (offline mode)."@)
    }
}

/// The snippet window the summary engine scans.
pub open spec fn spec_window_bytes(s: Seq<u8>) -> Seq<u8> {
    if s.len() > INTENT_SCAN_BYTES {
        s.take(INTENT_SCAN_BYTES as int)
    } else {
        s
    }
}

/// Return a short, high-signal summary for a file from its path, snippet
/// window, and language label.
#[verifier::rlimit(100)]
pub fn guess_summary(path: &[u8], snippet: &[u8], lang: &[u8]) -> (r: Vec<u8>)
    ensures
        r@ == spec_guess_summary(path@, snippet@, lang@),
        r@.len() > 0,
{
    proof {
        reveal_strlit("map_view.rs");
        reveal_strlit("tree_view.rs");
        reveal_strlit("chunker.rs");
        reveal_strlit("scan.rs");
        reveal_strlit("snippet.rs");
        reveal_strlit("helpers.rs");
        reveal_strlit("commands.rs");
        reveal_strlit("intent.rs");
        reveal_strlit("cargo.toml");
        reveal_strlit("package.json");
        reveal_strlit("pyproject.toml");
        reveal_strlit("requirements.txt");
        reveal_strlit("dockerfile");
        reveal_strlit("/docker/");
        reveal_strlit("makefile");
        reveal_strlit(".mk");
        reveal_strlit("readme.md");
        reveal_strlit("readme");
        reveal_strlit("license");
        reveal_strlit("license.md");
        reveal_strlit(".github/workflows/");
        reveal_strlit("/.gitlab-ci");
        reveal_strlit("/.circleci/");
        reveal_strlit(".yml");
        reveal_strlit(".yaml");
        reveal_strlit(".toml");
        reveal_strlit(".env");
        reveal_strlit("src/main.rs");
        reveal_strlit("/bin/");
        reveal_strlit("fn main(");
        reveal_strlit("python");
        reveal_strlit("if __name__ == '__main__'");
        reveal_strlit("lib.rs");
        reveal_strlit("/tests");
        reveal_strlit("/test");
        reveal_strlit("_test.rs");
        reveal_strlit(".spec.ts");
        reveal_strlit(".spec.js");
        reveal_strlit("#[test]");
        reveal_strlit("pytest");
        reveal_strlit("mod.rs");
        reveal_strlit("mod ");
        reveal_strlit("/ui");
        reveal_strlit("/panel");
        reveal_strlit("/editor");
        reveal_strlit("/view");
        reveal_strlit("/component");
        reveal_strlit("/widget");
        reveal_strlit("/screen");
        reveal_strlit("/page");
        reveal_strlit("/core");
        reveal_strlit("/engine");
        reveal_strlit("/domain");
        reveal_strlit("/model");
        reveal_strlit("/service");
        reveal_strlit("use clap");
        reveal_strlit("use structopt");
        reveal_strlit("use argh");
        reveal_strlit("/cli");
        reveal_strlit("axum::");
        reveal_strlit("actix");
        reveal_strlit("rocket::");
        reveal_strlit("warp::");
        reveal_strlit("router");
        reveal_strlit("/http");
        reveal_strlit("/server");
        reveal_strlit("/api");
        reveal_strlit("sqlx::");
        reveal_strlit("diesel::");
        reveal_strlit("postgres");
        reveal_strlit("mongodb");
        reveal_strlit("redis");
        reveal_strlit("/db");
        reveal_strlit("/repo");
        reveal_strlit("/repository");
        reveal_strlit("/persistence");
        reveal_strlit("tokio::");
        reveal_strlit("async fn");
        reveal_strlit("std::sync");
        reveal_strlit("mpsc");
        reveal_strlit("spawn(");
        reveal_strlit("std::fs");
        reveal_strlit("std::io");
        reveal_strlit("/io");
        reveal_strlit("/fs");
        reveal_strlit("rust");
        reveal_strlit("/types");
        reveal_strlit("/util");
        reveal_strlit("Builds semantic project map (markdown).");
        reveal_strlit("Builds structural project tree (markdown).");
        reveal_strlit("Splits indexed files into paste chunks.");
        reveal_strlit("Repo scanner: walk, hash, detect, snippet, summarize.");
        reveal_strlit("Snippet extractor: model-optimized excerpts.");
        reveal_strlit("Formatting and shared helper utilities.");
        reveal_strlit("CLI subcommands wiring and user-facing flows.");
        reveal_strlit("Intent classifier: offline file purpose inference.");
        reveal_strlit("Cargo manifest / workspace configuration.");
        reveal_strlit("Node package manifest (scripts/deps).");
        reveal_strlit("Python project configuration (build/deps/tooling).");
        reveal_strlit("Python dependencies locklist.");
        reveal_strlit("Container build definition (Dockerfile).");
        reveal_strlit("Make build targets and automation.");
        reveal_strlit("Project README / documentation.");
        reveal_strlit("Project license.");
        reveal_strlit("CI pipeline/workflow configuration.");
        reveal_strlit("YAML configuration file.");
        reveal_strlit("TOML configuration file.");
        reveal_strlit("Environment variables file.");
        reveal_strlit("Entrypoint for this Rust binary.");
        reveal_strlit("Python script entrypoint.");
        reveal_strlit("Root library file for this Rust crate.");
        reveal_strlit("Test module or spec suite.");
        reveal_strlit("Module definition / namespace aggregator.");
        reveal_strlit("User interface / presentation layer.");
        reveal_strlit("Core domain logic / engine layer.");
        reveal_strlit("Command-line interface.");
        reveal_strlit("HTTP server / routing.");
        reveal_strlit("Database access / persistence layer.");
        reveal_strlit("Concurrency / async orchestration.");
        reveal_strlit("Filesystem / IO utilities.");
        reveal_strlit("Type definitions / data models.");
        reveal_strlit("Utility helpers for the crate.");
        reveal_strlit("No summary available (offline mode).");
    }
    let plv = to_lower(crate::helpers::normalize_slashes(path).as_slice());
    let pl = plv.as_slice();
    let scan_end = if snippet.len() > INTENT_SCAN_BYTES {
        INTENT_SCAN_BYTES
    } else {
        snippet.len()
    };
    let scan_vec = sub_vec(snippet, 0, scan_end);
    let scan = scan_vec.as_slice();
    proof {
        assert(scan@ == spec_window_bytes(snippet@));
    }
    let slv = to_lower(scan);
    let sl = slv.as_slice();
    let llv = to_lower(lang);
    let ll = llv.as_slice();
    if ends_with(pl, lit("map_view.rs").as_slice()) {
        lit("Builds semantic project map (markdown).")
    } else if ends_with(pl, lit("tree_view.rs").as_slice()) {
        lit("Builds structural project tree (markdown).")
    } else if ends_with(pl, lit("chunker.rs").as_slice()) {
        lit("Splits indexed files into paste chunks.")
    } else if ends_with(pl, lit("scan.rs").as_slice()) {
        lit("Repo scanner: walk, hash, detect, snippet, summarize.")
    } else if ends_with(pl, lit("snippet.rs").as_slice()) {
        lit("Snippet extractor: model-optimized excerpts.")
    } else if ends_with(pl, lit("helpers.rs").as_slice()) {
        lit("Formatting and shared helper utilities.")
    } else if ends_with(pl, lit("commands.rs").as_slice()) {
        lit("CLI subcommands wiring and user-facing flows.")
    } else if ends_with(pl, lit("intent.rs").as_slice()) {
        lit("Intent classifier: offline file purpose inference.")
    } else if ends_with(pl, lit("cargo.toml").as_slice()) {
        lit("Cargo manifest / workspace configuration.")
    } else if ends_with(pl, lit("package.json").as_slice()) {
        lit("Node package manifest (scripts/deps).")
    } else if ends_with(pl, lit("pyproject.toml").as_slice()) {
        lit("Python project configuration (build/deps/tooling).")
    } else if ends_with(pl, lit("requirements.txt").as_slice()) {
        lit("Python dependencies locklist.")
    } else if ends_with(pl, lit("dockerfile").as_slice()) || contains_sub(
        pl,
        lit("/docker/").as_slice(),
    ) {
        lit("Container build definition (Dockerfile).")
    } else if ends_with(pl, lit("makefile").as_slice()) || ends_with(pl, lit(".mk").as_slice()) {
        lit("Make build targets and automation.")
    } else if ends_with(pl, lit("readme.md").as_slice()) || ends_with(
        pl,
        lit("readme").as_slice(),
    ) {
        lit("Project README / documentation.")
    } else if ends_with(pl, lit("license").as_slice()) || ends_with(
        pl,
        lit("license.md").as_slice(),
    ) {
        lit("Project license.")
    } else if contains_sub(pl, lit(".github/workflows/").as_slice()) || contains_sub(
        pl,
        lit("/.gitlab-ci").as_slice(),
    ) || contains_sub(pl, lit("/.circleci/").as_slice()) {
        lit("CI pipeline/workflow configuration.")
    } else if ends_with(pl, lit(".yml").as_slice()) || ends_with(pl, lit(".yaml").as_slice()) {
        lit("YAML configuration file.")
    } else if ends_with(pl, lit(".toml").as_slice()) {
        lit("TOML configuration file.")
    } else if ends_with(pl, lit(".env").as_slice()) {
        lit("Environment variables file.")
    } else if ends_with(pl, lit("src/main.rs").as_slice()) || contains_sub(
        pl,
        lit("/bin/").as_slice(),
    ) || contains_sub(sl, lit("fn main(").as_slice()) {
        lit("Entrypoint for this Rust binary.")
    } else if eq_bytes(ll, lit("python").as_slice()) && contains_sub(
        sl,
        lit("if __name__ == '__main__'").as_slice(),
    ) {
        lit("Python script entrypoint.")
    } else if ends_with(pl, lit("lib.rs").as_slice()) {
        lit("Root library file for this Rust crate.")
    } else if contains_sub(pl, lit("/tests").as_slice()) || contains_sub(
        pl,
        lit("/test").as_slice(),
    ) || ends_with(pl, lit("_test.rs").as_slice()) || ends_with(pl, lit(".spec.ts").as_slice())
        || ends_with(pl, lit(".spec.js").as_slice()) || contains_sub(
        sl,
        lit("#[test]").as_slice(),
    ) || contains_sub(sl, lit("pytest").as_slice()) {
        lit("Test module or spec suite.")
    } else if ends_with(pl, lit("mod.rs").as_slice()) || starts_with(
        trim_start_vec(sl).as_slice(),
        lit("mod ").as_slice(),
    ) {
        lit("Module definition / namespace aggregator.")
    } else if contains_sub(pl, lit("/ui").as_slice()) || contains_sub(
        pl,
        lit("/panel").as_slice(),
    ) || contains_sub(pl, lit("/editor").as_slice()) || contains_sub(
        pl,
        lit("/view").as_slice(),
    ) || contains_sub(pl, lit("/component").as_slice()) || contains_sub(
        pl,
        lit("/widget").as_slice(),
    ) || contains_sub(pl, lit("/screen").as_slice()) || contains_sub(
        pl,
        lit("/page").as_slice(),
    ) {
        lit("User interface / presentation layer.")
    } else if contains_sub(pl, lit("/core").as_slice()) || contains_sub(
        pl,
        lit("/engine").as_slice(),
    ) || contains_sub(pl, lit("/domain").as_slice()) || contains_sub(
        pl,
        lit("/model").as_slice(),
    ) || contains_sub(pl, lit("/service").as_slice()) {
        lit("Core domain logic / engine layer.")
    } else if contains_sub(sl, lit("use clap").as_slice()) || contains_sub(
        sl,
        lit("use structopt").as_slice(),
    ) || contains_sub(sl, lit("use argh").as_slice()) || contains_sub(
        pl,
        lit("/cli").as_slice(),
    ) {
        lit("Command-line interface.")
    } else if contains_sub(sl, lit("axum::").as_slice()) || contains_sub(
        sl,
        lit("actix").as_slice(),
    ) || contains_sub(sl, lit("rocket::").as_slice()) || contains_sub(
        sl,
        lit("warp::").as_slice(),
    ) || (contains_sub(sl, lit("router").as_slice()) && (contains_sub(
        pl,
        lit("/http").as_slice(),
    ) || contains_sub(pl, lit("/server").as_slice()) || contains_sub(
        pl,
        lit("/api").as_slice(),
    ))) {
        lit("HTTP server / routing.")
    } else if contains_sub(sl, lit("sqlx::").as_slice()) || contains_sub(
        sl,
        lit("diesel::").as_slice(),
    ) || contains_sub(sl, lit("postgres").as_slice()) || contains_sub(
        sl,
        lit("mongodb").as_slice(),
    ) || contains_sub(sl, lit("redis").as_slice()) || contains_sub(pl, lit("/db").as_slice())
        || contains_sub(pl, lit("/repo").as_slice()) || contains_sub(
        pl,
        lit("/repository").as_slice(),
    ) || contains_sub(pl, lit("/persistence").as_slice()) {
        lit("Database access / persistence layer.")
    } else if contains_sub(sl, lit("tokio::").as_slice()) || contains_sub(
        sl,
        lit("async fn").as_slice(),
    ) || contains_sub(sl, lit("std::sync").as_slice()) || contains_sub(
        sl,
        lit("mpsc").as_slice(),
    ) || contains_sub(sl, lit("spawn(").as_slice()) {
        lit("Concurrency / async orchestration.")
    } else if contains_sub(sl, lit("std::fs").as_slice()) || contains_sub(
        sl,
        lit("std::io").as_slice(),
    ) || contains_sub(pl, lit("/io").as_slice()) || contains_sub(pl, lit("/fs").as_slice()) {
        lit("Filesystem / IO utilities.")
    } else if eq_bytes(ll, lit("rust").as_slice()) && contains_sub(
        pl,
        lit("/types").as_slice(),
    ) {
        lit("Type definitions / data models.")
    } else if eq_bytes(ll, lit("rust").as_slice()) && contains_sub(pl, lit("/util").as_slice()) {
        lit("Utility helpers for the crate.")
    } else {
        match extract_doc_summary(scan) {
            Some(doc) => doc,
            None => match first_non_empty_line(scan) {
                Some(line) => line,
                None => lit("No summary available (offline mode)."),
            },
        }
    }
}

} // verus!
