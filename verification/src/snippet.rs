//! Snippet extraction: a compact, high-signal excerpt of a file's head
//! window — the leading documentation block first, then the lines a
//! per-language scorer marks as interesting, with a sliver of trailing
//! context, reassembled in original order under a fixed line budget.
use vstd::prelude::*;

use crate::helpers::spec_first_sub;
use crate::text::{
    ascii_bytes, contains_sub, ends_with, lit, spec_contains, spec_ends_with, spec_join_nl,
    spec_lines, spec_lower_seq, spec_starts_with, spec_strip_repeat, spec_strip_repeat_end,
    spec_trim, spec_trim_end, spec_trim_start, split_lines, starts_with, strip_repeat,
    strip_repeat_end, sub_vec, to_lower, trim, trim_end, trim_start,
};

verus! {

/// Head window of the content the extractor scans.
pub const MAX_SCAN_BYTES: usize = 32768;

/// Line cap within the head window.
pub const MAX_SCAN_LINES: usize = 800;

/// Final snippet line budget.
pub const MAX_KEEP_LINES: usize = 60;

/// Early stop after this many interesting lines.
pub const MAX_INTERESTING_SEEN: usize = 400;

/// Cap on how much of the budget a documentation block may take.
pub const MAX_DOC_LINES: usize = 20;

/// Per-line interest score for Rust text.
pub open spec fn spec_score_rust(l: Seq<u8>, ll: Seq<u8>) -> u8 {
    if spec_starts_with(l, ascii_bytes("///"@)) || spec_starts_with(l, ascii_bytes("//!"@)) {
        9
    } else if spec_starts_with(l, ascii_bytes("pub use "@)) {
        5
    } else if spec_starts_with(l, ascii_bytes("pub fn "@)) || spec_starts_with(
        l,
        ascii_bytes("pub struct "@),
    ) || spec_starts_with(l, ascii_bytes("pub enum "@)) || spec_starts_with(
        l,
        ascii_bytes("pub trait "@),
    ) || spec_starts_with(l, ascii_bytes("pub mod "@)) {
        8
    } else if spec_starts_with(l, ascii_bytes("use "@)) {
        3
    } else if spec_starts_with(l, ascii_bytes("fn "@)) || spec_starts_with(
        l,
        ascii_bytes("struct "@),
    ) || spec_starts_with(l, ascii_bytes("enum "@)) || spec_starts_with(
        l,
        ascii_bytes("impl "@),
    ) || spec_starts_with(l, ascii_bytes("type "@)) {
        6
    } else if spec_starts_with(l, ascii_bytes("#["@)) {
        4
    } else if spec_contains(ll, ascii_bytes("todo"@)) || spec_contains(
        ll,
        ascii_bytes("fixme"@),
    ) {
        2
    } else {
        0
    }
}

pub open spec fn spec_score_python(l: Seq<u8>, ll: Seq<u8>) -> u8 {
    if spec_starts_with(l, ascii_bytes("\"\"\""@)) || spec_starts_with(l, ascii_bytes("'''"@))
        || spec_starts_with(l, ascii_bytes("#!"@)) || spec_starts_with(l, ascii_bytes("# "@)) {
        9
    } else if spec_starts_with(l, ascii_bytes("def "@)) || spec_starts_with(
        l,
        ascii_bytes("class "@),
    ) {
        8
    } else if spec_starts_with(l, ascii_bytes("import "@)) || spec_starts_with(
        l,
        ascii_bytes("from "@),
    ) {
        3
    } else if spec_starts_with(ll, ascii_bytes("if __name__ == '__main__'"@)) {
        7
    } else if spec_contains(ll, ascii_bytes("todo"@)) || spec_contains(
        ll,
        ascii_bytes("fixme"@),
    ) {
        2
    } else {
        0
    }
}

pub open spec fn spec_score_js_ts(l: Seq<u8>) -> u8 {
    if spec_starts_with(l, ascii_bytes("/**"@)) || spec_starts_with(l, ascii_bytes("* "@))
        || spec_starts_with(l, ascii_bytes("//"@)) {
        8
    } else if spec_starts_with(l, ascii_bytes("export "@)) {
        8
    } else if spec_starts_with(l, ascii_bytes("import "@)) {
        3
    } else if spec_starts_with(l, ascii_bytes("function "@)) || spec_contains(
        l,
        ascii_bytes("=>"@),
    ) {
        5
    } else {
        0
    }
}

pub open spec fn spec_score_go(l: Seq<u8>) -> u8 {
    if spec_starts_with(l, ascii_bytes("//"@)) {
        7
    } else if spec_starts_with(l, ascii_bytes("package "@)) {
        5
    } else if spec_starts_with(l, ascii_bytes("import "@)) {
        3
    } else if spec_starts_with(l, ascii_bytes("func "@)) {
        6
    } else {
        0
    }
}

pub open spec fn spec_score_config(l: Seq<u8>) -> u8 {
    if spec_starts_with(l, ascii_bytes("["@)) || spec_contains(l, ascii_bytes(": "@))
        || spec_contains(l, ascii_bytes(" = "@)) {
        5
    } else {
        0
    }
}

pub open spec fn spec_score_md(l: Seq<u8>) -> u8 {
    if spec_starts_with(l, ascii_bytes("# "@)) || spec_starts_with(l, ascii_bytes("## "@)) {
        8
    } else {
        0
    }
}

pub open spec fn spec_score_generic(l: Seq<u8>) -> u8 {
    if spec_starts_with(l, ascii_bytes("//"@)) || spec_starts_with(l, ascii_bytes("#"@))
        || spec_starts_with(l, ascii_bytes("--"@)) {
        6
    } else if spec_contains(l, ascii_bytes("class "@)) || spec_starts_with(
        l,
        ascii_bytes("def "@),
    ) || spec_starts_with(l, ascii_bytes("fn "@)) {
        5
    } else if spec_starts_with(l, ascii_bytes("import "@)) || spec_starts_with(
        l,
        ascii_bytes("using "@),
    ) {
        3
    } else {
        0
    }
}

/// Interest score of one trimmed line, dispatched on the language label.
pub open spec fn spec_score_line(l: Seq<u8>, lang: Seq<u8>) -> u8 {
    let ll = spec_lower_seq(l);
    let lg = spec_lower_seq(lang);
    if lg == ascii_bytes("rust"@) {
        spec_score_rust(l, ll)
    } else if lg == ascii_bytes("python"@) {
        spec_score_python(l, ll)
    } else if lg == ascii_bytes("typescript"@) || lg == ascii_bytes("ts"@) || lg == ascii_bytes(
        "javascript"@,
    ) || lg == ascii_bytes("js"@) {
        spec_score_js_ts(l)
    } else if lg == ascii_bytes("go"@) {
        spec_score_go(l)
    } else if lg == ascii_bytes("toml"@) || lg == ascii_bytes("yaml"@) || lg == ascii_bytes(
        "yml"@,
    ) || lg == ascii_bytes("json"@) {
        spec_score_config(l)
    } else if lg == ascii_bytes("markdown"@) || lg == ascii_bytes("md"@) {
        spec_score_md(l)
    } else {
        spec_score_generic(l)
    }
}

/// Score one trimmed line by language.
pub fn score_line(l: &[u8], lang: &[u8]) -> (r: u8)
    ensures
        r == spec_score_line(l@, lang@),
{
    proof {
        reveal_strlit("rust");
        reveal_strlit("python");
        reveal_strlit("typescript");
        reveal_strlit("ts");
        reveal_strlit("javascript");
        reveal_strlit("js");
        reveal_strlit("go");
        reveal_strlit("toml");
        reveal_strlit("yaml");
        reveal_strlit("yml");
        reveal_strlit("json");
        reveal_strlit("markdown");
        reveal_strlit("md");
    }
    let lg = to_lower(lang);
    let g = lg.as_slice();
    if crate::text::eq_bytes(g, lit("rust").as_slice()) {
        score_rust(l)
    } else if crate::text::eq_bytes(g, lit("python").as_slice()) {
        score_python(l)
    } else if crate::text::eq_bytes(g, lit("typescript").as_slice()) || crate::text::eq_bytes(
        g,
        lit("ts").as_slice(),
    ) || crate::text::eq_bytes(g, lit("javascript").as_slice()) || crate::text::eq_bytes(
        g,
        lit("js").as_slice(),
    ) {
        score_js_ts(l)
    } else if crate::text::eq_bytes(g, lit("go").as_slice()) {
        score_go(l)
    } else if crate::text::eq_bytes(g, lit("toml").as_slice()) || crate::text::eq_bytes(
        g,
        lit("yaml").as_slice(),
    ) || crate::text::eq_bytes(g, lit("yml").as_slice()) || crate::text::eq_bytes(
        g,
        lit("json").as_slice(),
    ) {
        score_config(l)
    } else if crate::text::eq_bytes(g, lit("markdown").as_slice()) || crate::text::eq_bytes(
        g,
        lit("md").as_slice(),
    ) {
        score_md(l)
    } else {
        score_generic(l)
    }
}

pub fn score_rust(l: &[u8]) -> (r: u8)
    ensures
        r == spec_score_rust(l@, spec_lower_seq(l@)),
{
    proof {
        reveal_strlit("///");
        reveal_strlit("//!");
        reveal_strlit("pub use ");
        reveal_strlit("pub fn ");
        reveal_strlit("pub struct ");
        reveal_strlit("pub enum ");
        reveal_strlit("pub trait ");
        reveal_strlit("pub mod ");
        reveal_strlit("use ");
        reveal_strlit("fn ");
        reveal_strlit("struct ");
        reveal_strlit("enum ");
        reveal_strlit("impl ");
        reveal_strlit("type ");
        reveal_strlit("#[");
        reveal_strlit("todo");
        reveal_strlit("fixme");
    }
    let llv = to_lower(l);
    let ll = llv.as_slice();
    if starts_with(l, lit("///").as_slice()) || starts_with(l, lit("//!").as_slice()) {
        9
    } else if starts_with(l, lit("pub use ").as_slice()) {
        5
    } else if starts_with(l, lit("pub fn ").as_slice()) || starts_with(
        l,
        lit("pub struct ").as_slice(),
    ) || starts_with(l, lit("pub enum ").as_slice()) || starts_with(
        l,
        lit("pub trait ").as_slice(),
    ) || starts_with(l, lit("pub mod ").as_slice()) {
        8
    } else if starts_with(l, lit("use ").as_slice()) {
        3
    } else if starts_with(l, lit("fn ").as_slice()) || starts_with(l, lit("struct ").as_slice())
        || starts_with(l, lit("enum ").as_slice()) || starts_with(l, lit("impl ").as_slice())
        || starts_with(l, lit("type ").as_slice()) {
        6
    } else if starts_with(l, lit("#[").as_slice()) {
        4
    } else if contains_sub(ll, lit("todo").as_slice()) || contains_sub(
        ll,
        lit("fixme").as_slice(),
    ) {
        2
    } else {
        0
    }
}

pub fn score_python(l: &[u8]) -> (r: u8)
    ensures
        r == spec_score_python(l@, spec_lower_seq(l@)),
{
    proof {
        reveal_strlit("\"\"\"");
        reveal_strlit("'''");
        reveal_strlit("#!");
        reveal_strlit("# ");
        reveal_strlit("def ");
        reveal_strlit("class ");
        reveal_strlit("import ");
        reveal_strlit("from ");
        reveal_strlit("if __name__ == '__main__'");
        reveal_strlit("todo");
        reveal_strlit("fixme");
    }
    let llv = to_lower(l);
    let ll = llv.as_slice();
    if starts_with(l, lit("\"\"\"").as_slice()) || starts_with(l, lit("'''").as_slice())
        || starts_with(l, lit("#!").as_slice()) || starts_with(l, lit("# ").as_slice()) {
        9
    } else if starts_with(l, lit("def ").as_slice()) || starts_with(l, lit("class ").as_slice()) {
        8
    } else if starts_with(l, lit("import ").as_slice()) || starts_with(
        l,
        lit("from ").as_slice(),
    ) {
        3
    } else if starts_with(ll, lit("if __name__ == '__main__'").as_slice()) {
        7
    } else if contains_sub(ll, lit("todo").as_slice()) || contains_sub(
        ll,
        lit("fixme").as_slice(),
    ) {
        2
    } else {
        0
    }
}

pub fn score_js_ts(l: &[u8]) -> (r: u8)
    ensures
        r == spec_score_js_ts(l@),
{
    proof {
        reveal_strlit("/**");
        reveal_strlit("* ");
        reveal_strlit("//");
        reveal_strlit("export ");
        reveal_strlit("import ");
        reveal_strlit("function ");
        reveal_strlit("=>");
    }
    if starts_with(l, lit("/**").as_slice()) || starts_with(l, lit("* ").as_slice())
        || starts_with(l, lit("//").as_slice()) {
        8
    } else if starts_with(l, lit("export ").as_slice()) {
        8
    } else if starts_with(l, lit("import ").as_slice()) {
        3
    } else if starts_with(l, lit("function ").as_slice()) || contains_sub(
        l,
        lit("=>").as_slice(),
    ) {
        5
    } else {
        0
    }
}

pub fn score_go(l: &[u8]) -> (r: u8)
    ensures
        r == spec_score_go(l@),
{
    proof {
        reveal_strlit("//");
        reveal_strlit("package ");
        reveal_strlit("import ");
        reveal_strlit("func ");
    }
    if starts_with(l, lit("//").as_slice()) {
        7
    } else if starts_with(l, lit("package ").as_slice()) {
        5
    } else if starts_with(l, lit("import ").as_slice()) {
        3
    } else if starts_with(l, lit("func ").as_slice()) {
        6
    } else {
        0
    }
}

pub fn score_config(l: &[u8]) -> (r: u8)
    ensures
        r == spec_score_config(l@),
{
    proof {
        reveal_strlit("[");
        reveal_strlit(": ");
        reveal_strlit(" = ");
    }
    if starts_with(l, lit("[").as_slice()) || contains_sub(l, lit(": ").as_slice())
        || contains_sub(l, lit(" = ").as_slice()) {
        5
    } else {
        0
    }
}

pub fn score_md(l: &[u8]) -> (r: u8)
    ensures
        r == spec_score_md(l@),
{
    proof {
        reveal_strlit("# ");
        reveal_strlit("## ");
    }
    if starts_with(l, lit("# ").as_slice()) || starts_with(l, lit("## ").as_slice()) {
        8
    } else {
        0
    }
}

pub fn score_generic(l: &[u8]) -> (r: u8)
    ensures
        r == spec_score_generic(l@),
{
    proof {
        reveal_strlit("//");
        reveal_strlit("#");
        reveal_strlit("--");
        reveal_strlit("class ");
        reveal_strlit("def ");
        reveal_strlit("fn ");
        reveal_strlit("import ");
        reveal_strlit("using ");
    }
    if starts_with(l, lit("//").as_slice()) || starts_with(l, lit("#").as_slice()) || starts_with(
        l,
        lit("--").as_slice(),
    ) {
        6
    } else if contains_sub(l, lit("class ").as_slice()) || starts_with(
        l,
        lit("def ").as_slice(),
    ) || starts_with(l, lit("fn ").as_slice()) {
        5
    } else if starts_with(l, lit("import ").as_slice()) || starts_with(
        l,
        lit("using ").as_slice(),
    ) {
        3
    } else {
        0
    }
}


/// Leading `//!`/`///` block of Rust text: messages collected until the
/// first code line after the block starts; a one-line `/* ... */` header
/// counts when nothing else started.
pub open spec fn spec_lead_rust(lines: Seq<Seq<u8>>, i: int, started: bool, acc: Seq<Seq<u8>>) -> Seq<
    Seq<u8>,
>
    decreases lines.len() - i,
{
    if i < 0 || i >= lines.len() || i >= 120 {
        acc
    } else {
        let t = spec_trim_start(lines[i]);
        if spec_starts_with(t, ascii_bytes("//!"@)) || spec_starts_with(t, ascii_bytes("///"@)) {
            spec_lead_rust(
                lines,
                i + 1,
                true,
                acc.push(
                    spec_trim(
                        spec_strip_repeat(
                            spec_strip_repeat(t, ascii_bytes("//!"@)),
                            ascii_bytes("///"@),
                        ),
                    ),
                ),
            )
        } else if started {
            if spec_starts_with(t, ascii_bytes("//"@)) || t.len() == 0 {
                spec_lead_rust(lines, i + 1, started, acc)
            } else {
                acc
            }
        } else if spec_starts_with(t, ascii_bytes("/*"@)) && spec_contains(
            t,
            ascii_bytes("*/"@),
        ) {
            let inner = spec_trim(
                spec_strip_repeat_end(spec_strip_repeat(t, ascii_bytes("/*"@)), ascii_bytes("*/"@)),
            );
            if inner.len() > 0 {
                acc.push(inner)
            } else {
                acc
            }
        } else {
            spec_lead_rust(lines, i + 1, started, acc)
        }
    }
}

/// Leading Python docstring or `#` header: the first triple-quoted block, or
/// the run of hash comments at the top.
pub open spec fn spec_lead_py(
    lines: Seq<Seq<u8>>,
    i: int,
    in_triple: bool,
    q_double: bool,
    acc: Seq<Seq<u8>>,
) -> Seq<Seq<u8>>
    decreases lines.len() - i,
{
    if i < 0 || i >= lines.len() || i >= 160 {
        acc
    } else {
        let t = spec_trim_start(lines[i]);
        if !in_triple && (spec_starts_with(t, ascii_bytes("\"\"\""@)) || spec_starts_with(
            t,
            ascii_bytes("'''"@),
        )) {
            let qd = spec_starts_with(t, ascii_bytes("\"\"\""@));
            let q = if qd {
                ascii_bytes("\"\"\""@)
            } else {
                ascii_bytes("'''"@)
            };
            if spec_ends_with(t, q) && t.len() > 6 {
                let inner = spec_trim(spec_strip_quote_ends(t));
                if inner.len() > 0 {
                    acc.push(inner)
                } else {
                    acc
                }
            } else {
                spec_lead_py(lines, i + 1, true, qd, acc)
            }
        } else if in_triple {
            let q = if q_double {
                ascii_bytes("\"\"\""@)
            } else {
                ascii_bytes("'''"@)
            };
            if spec_contains(t, q) {
                let inner = spec_trim(t.take(spec_first_sub(t, q, 0)));
                if inner.len() > 0 {
                    acc.push(inner)
                } else {
                    acc
                }
            } else {
                spec_lead_py(lines, i + 1, in_triple, q_double, acc.push(t))
            }
        } else if spec_starts_with(t, ascii_bytes("#!"@)) || spec_starts_with(
            t,
            ascii_bytes("# "@),
        ) {
            spec_lead_py(
                lines,
                i + 1,
                in_triple,
                q_double,
                acc.push(
                    spec_trim(
                        spec_strip_repeat(spec_strip_repeat(t, ascii_bytes("#!"@)), ascii_bytes("#"@)),
                    ),
                ),
            )
        } else if acc.len() > 0 {
            if !spec_starts_with(t, ascii_bytes("#"@)) && t.len() > 0 {
                acc
            } else {
                spec_lead_py(lines, i + 1, in_triple, q_double, acc)
            }
        } else if t.len() > 0 {
            acc
        } else {
            spec_lead_py(lines, i + 1, in_triple, q_double, acc)
        }
    }
}

/// Both ends of a docstring header line stripped of quote characters.
pub open spec fn spec_strip_quote_ends(t: Seq<u8>) -> Seq<u8> {
    spec_strip_repeat_end(
        spec_strip_repeat(
            spec_strip_repeat_end(spec_strip_repeat(t, ascii_bytes("\""@)), ascii_bytes("\""@)),
            ascii_bytes("'"@),
        ),
        ascii_bytes("'"@),
    )
}

/// Leading `/** ... */` block or `//` header of JS/TS text.
pub open spec fn spec_lead_js(lines: Seq<Seq<u8>>, i: int, in_block: bool, acc: Seq<Seq<u8>>) -> Seq<
    Seq<u8>,
>
    decreases lines.len() - i,
{
    if i < 0 || i >= lines.len() || i >= 160 {
        acc
    } else {
        let t = spec_trim_start(lines[i]);
        if !in_block && spec_starts_with(t, ascii_bytes("/**"@)) {
            if spec_contains(t, ascii_bytes("*/"@)) {
                let inner = spec_trim(
                    spec_strip_repeat(
                        spec_trim(
                            spec_strip_repeat_end(
                                spec_strip_repeat(t, ascii_bytes("/**"@)),
                                ascii_bytes("*/"@),
                            ),
                        ),
                        ascii_bytes("*"@),
                    ),
                );
                if inner.len() > 0 {
                    acc.push(inner)
                } else {
                    acc
                }
            } else {
                spec_lead_js(lines, i + 1, true, acc)
            }
        } else if in_block {
            if spec_contains(t, ascii_bytes("*/"@)) {
                let inner = spec_trim(
                    spec_strip_repeat(
                        spec_trim(spec_strip_repeat_end(t, ascii_bytes("*/"@))),
                        ascii_bytes("*"@),
                    ),
                );
                if inner.len() > 0 {
                    acc.push(inner)
                } else {
                    acc
                }
            } else {
                let inner = spec_trim(spec_strip_repeat(t, ascii_bytes("*"@)));
                if inner.len() > 0 {
                    spec_lead_js(lines, i + 1, in_block, acc.push(inner))
                } else {
                    spec_lead_js(lines, i + 1, in_block, acc)
                }
            }
        } else if spec_starts_with(t, ascii_bytes("// "@)) || spec_starts_with(
            t,
            ascii_bytes("//\t"@),
        ) {
            spec_lead_js(
                lines,
                i + 1,
                in_block,
                acc.push(spec_trim(spec_strip_repeat(t, ascii_bytes("//"@)))),
            )
        } else if acc.len() > 0 && !spec_starts_with(t, ascii_bytes("//"@)) && t.len() > 0 {
            acc
        } else if acc.len() == 0 && t.len() > 0 && !spec_starts_with(t, ascii_bytes("//"@))
            && !spec_starts_with(t, ascii_bytes("/*"@)) {
            acc
        } else {
            spec_lead_js(lines, i + 1, in_block, acc)
        }
    }
}

/// Leading Markdown head: the first heading plus one following prose line.
pub open spec fn spec_lead_md(lines: Seq<Seq<u8>>, i: int, acc: Seq<Seq<u8>>) -> Seq<Seq<u8>>
    decreases lines.len() - i,
{
    if i < 0 || i >= lines.len() || i >= 60 {
        acc
    } else {
        let t = spec_trim(lines[i]);
        if spec_starts_with(t, ascii_bytes("# "@)) {
            spec_lead_md(lines, i + 1, acc.push(spec_trim(spec_strip_repeat(t, ascii_bytes("# "@)))))
        } else if acc.len() > 0 {
            if t.len() == 0 {
                acc
            } else {
                acc.push(t)
            }
        } else if t.len() > 0 && !spec_starts_with(t, ascii_bytes("#"@)) {
            acc
        } else {
            spec_lead_md(lines, i + 1, acc)
        }
    }
}

/// Leading comment head of any other text.
pub open spec fn spec_lead_generic(lines: Seq<Seq<u8>>, i: int, acc: Seq<Seq<u8>>) -> Seq<Seq<u8>>
    decreases lines.len() - i,
{
    if i < 0 || i >= lines.len() || i >= 40 {
        acc
    } else {
        let t = spec_trim(lines[i]);
        if spec_starts_with(t, ascii_bytes("//"@)) || spec_starts_with(t, ascii_bytes("# "@))
            || spec_starts_with(t, ascii_bytes("--"@)) {
            spec_lead_generic(
                lines,
                i + 1,
                acc.push(
                    spec_trim(
                        spec_strip_repeat(spec_strip_repeat(t, ascii_bytes("//"@)), ascii_bytes("--"@)),
                    ),
                ),
            )
        } else if t.len() > 0 && acc.len() > 0 {
            acc.push(t)
        } else if acc.len() > 0 && t.len() == 0 {
            acc
        } else if t.len() > 0 && acc.len() == 0 {
            acc
        } else {
            spec_lead_generic(lines, i + 1, acc)
        }
    }
}

/// Nonempty doc lines, trimmed, capped so documentation cannot take the
/// whole snippet budget.
pub open spec fn spec_normalize_doc(v: Seq<Seq<u8>>, i: int, acc: Seq<Seq<u8>>) -> Seq<Seq<u8>>
    decreases v.len() - i,
{
    if i < 0 || i >= v.len() || acc.len() >= MAX_DOC_LINES {
        acc
    } else {
        let t = spec_trim(v[i]);
        if t.len() == 0 {
            spec_normalize_doc(v, i + 1, acc)
        } else {
            spec_normalize_doc(v, i + 1, acc.push(t))
        }
    }
}

/// The leading documentation block by language: `None` when nothing was
/// captured, else the normalised lines.
pub open spec fn spec_leading_doc_block(lines: Seq<Seq<u8>>, lang: Seq<u8>) -> Option<Seq<Seq<u8>>> {
    let lg = spec_lower_seq(lang);
    let raw = if lg == ascii_bytes("rust"@) {
        spec_lead_rust(lines, 0, false, Seq::empty())
    } else if lg == ascii_bytes("python"@) {
        spec_lead_py(lines, 0, false, false, Seq::empty())
    } else if lg == ascii_bytes("typescript"@) || lg == ascii_bytes("ts"@) || lg == ascii_bytes(
        "javascript"@,
    ) || lg == ascii_bytes("js"@) {
        spec_lead_js(lines, 0, false, Seq::empty())
    } else if lg == ascii_bytes("markdown"@) || lg == ascii_bytes("md"@) {
        spec_lead_md(lines, 0, Seq::empty())
    } else {
        spec_lead_generic(lines, 0, Seq::empty())
    };
    if raw.len() == 0 {
        None
    } else {
        Some(spec_normalize_doc(raw, 0, Seq::empty()))
    }
}


/// Collect the leading Rust doc block.
#[verifier::rlimit(100)]
fn lead_rust(lines: &Vec<Vec<u8>>) -> (r: Vec<Vec<u8>>)
    ensures
        r.deep_view() == spec_lead_rust(lines.deep_view(), 0, false, Seq::empty()),
{
    let ghost lv = lines.deep_view();
    let mut out: Vec<Vec<u8>> = Vec::new();
    let mut i: usize = 0;
    let mut started = false;
    let mut done = false;
    proof {
        assert(out.deep_view() =~= Seq::<Seq<u8>>::empty());
    }
    while !done && i < lines.len() && i < 120
        invariant
            i <= lv.len(),
            lv == lines.deep_view(),
            lv.len() == lines@.len(),
            !done ==> spec_lead_rust(lv, i as int, started, out.deep_view()) == spec_lead_rust(
                lv,
                0,
                false,
                Seq::empty(),
            ),
            done ==> out.deep_view() == spec_lead_rust(lv, 0, false, Seq::empty()),
        decreases lv.len() - i + if done {
            0int
        } else {
            1int
        },
    {
        proof {
            reveal_strlit("//!");
            reveal_strlit("///");
            reveal_strlit("//");
            reveal_strlit("/*");
            reveal_strlit("*/");
            assert(lv[i as int] == lines@[i as int]@);
        }
        let t = trim_start(lines[i].as_slice());
        let ghost o0 = out.deep_view();
        if starts_with(t.as_slice(), lit("//!").as_slice()) || starts_with(
            t.as_slice(),
            lit("///").as_slice(),
        ) {
            let a = strip_repeat(t.as_slice(), lit("//!").as_slice());
            let b = strip_repeat(a.as_slice(), lit("///").as_slice());
            let msg = trim(b.as_slice());
            let ghost mv = msg@;
            out.push(msg);
            started = true;
            proof {
                assert(out.deep_view() =~~= o0.push(mv));
            }
            i = i + 1;
        } else if started {
            if starts_with(t.as_slice(), lit("//").as_slice()) || t.len() == 0 {
                i = i + 1;
            } else {
                done = true;
            }
        } else if starts_with(t.as_slice(), lit("/*").as_slice()) && contains_sub(
            t.as_slice(),
            lit("*/").as_slice(),
        ) {
            let a = strip_repeat(t.as_slice(), lit("/*").as_slice());
            let b = strip_repeat_end(a.as_slice(), lit("*/").as_slice());
            let inner = trim(b.as_slice());
            if inner.len() > 0 {
                let ghost iv = inner@;
                out.push(inner);
                proof {
                    assert(out.deep_view() =~~= o0.push(iv));
                }
            }
            done = true;
        } else {
            i = i + 1;
        }
    }
    proof {
        if !done {
            assert(spec_lead_rust(lv, i as int, started, out.deep_view()) == out.deep_view());
        }
    }
    out
}


/// Collect the leading Python docstring or hash header.
#[verifier::rlimit(100)]
fn lead_py(lines: &Vec<Vec<u8>>) -> (r: Vec<Vec<u8>>)
    ensures
        r.deep_view() == spec_lead_py(lines.deep_view(), 0, false, false, Seq::empty()),
{
    let ghost lv = lines.deep_view();
    let mut out: Vec<Vec<u8>> = Vec::new();
    let mut i: usize = 0;
    let mut in_triple = false;
    let mut q_double = false;
    let mut done = false;
    proof {
        assert(out.deep_view() =~= Seq::<Seq<u8>>::empty());
    }
    while !done && i < lines.len() && i < 160
        invariant
            i <= lv.len(),
            lv == lines.deep_view(),
            lv.len() == lines@.len(),
            !done ==> spec_lead_py(lv, i as int, in_triple, q_double, out.deep_view())
                == spec_lead_py(lv, 0, false, false, Seq::empty()),
            done ==> out.deep_view() == spec_lead_py(lv, 0, false, false, Seq::empty()),
        decreases lv.len() - i + if done {
            0int
        } else {
            1int
        },
    {
        proof {
            reveal_strlit("\"\"\"");
            reveal_strlit("'''");
            reveal_strlit("\"");
            reveal_strlit("'");
            reveal_strlit("#!");
            reveal_strlit("# ");
            reveal_strlit("#");
            assert(lv[i as int] == lines@[i as int]@);
        }
        let t = trim_start(lines[i].as_slice());
        let ghost o0 = out.deep_view();
        let starts_dq = starts_with(t.as_slice(), lit("\"\"\"").as_slice());
        let starts_sq = starts_with(t.as_slice(), lit("'''").as_slice());
        if !in_triple && (starts_dq || starts_sq) {
            let q = if starts_dq {
                lit("\"\"\"")
            } else {
                lit("'''")
            };
            if ends_with(t.as_slice(), q.as_slice()) && t.len() > 6 {
                let a = strip_repeat(t.as_slice(), lit("\"").as_slice());
                let b = strip_repeat_end(a.as_slice(), lit("\"").as_slice());
                let c = strip_repeat(b.as_slice(), lit("'").as_slice());
                let d = strip_repeat_end(c.as_slice(), lit("'").as_slice());
                let inner = trim(d.as_slice());
                proof {
                    assert(inner@ == spec_trim(spec_strip_quote_ends(t@)));
                }
                if inner.len() > 0 {
                    let ghost iv = inner@;
                    out.push(inner);
                    proof {
                        assert(out.deep_view() =~~= o0.push(iv));
                    }
                }
                done = true;
            } else {
                in_triple = true;
                q_double = starts_dq;
                i = i + 1;
            }
        } else if in_triple {
            let q = if q_double {
                lit("\"\"\"")
            } else {
                lit("'''")
            };
            match crate::text::find_sub(t.as_slice(), q.as_slice(), 0) {
                Some(p) => {
                    proof {
                        crate::helpers::lemma_first_sub_at(t@, q@, 0, p as int);
                    }
                    let pre = sub_vec(t.as_slice(), 0, p);
                    proof {
                        assert(pre@ =~= t@.take(p as int));
                    }
                    let inner = trim(pre.as_slice());
                    if inner.len() > 0 {
                        let ghost iv = inner@;
                        out.push(inner);
                        proof {
                            assert(out.deep_view() =~~= o0.push(iv));
                        }
                    }
                    done = true;
                },
                None => {
                    proof {
                        crate::helpers::lemma_first_sub_none(t@, q@, 0);
                    }
                    let ghost tv = t@;
                    out.push(t);
                    proof {
                        assert(out.deep_view() =~~= o0.push(tv));
                    }
                    i = i + 1;
                },
            }
        } else if starts_with(t.as_slice(), lit("#!").as_slice()) || starts_with(
            t.as_slice(),
            lit("# ").as_slice(),
        ) {
            let a = strip_repeat(t.as_slice(), lit("#!").as_slice());
            let b = strip_repeat(a.as_slice(), lit("#").as_slice());
            let msg = trim(b.as_slice());
            let ghost mv = msg@;
            out.push(msg);
            proof {
                assert(out.deep_view() =~~= o0.push(mv));
            }
            i = i + 1;
        } else if out.len() > 0 {
            if !starts_with(t.as_slice(), lit("#").as_slice()) && t.len() > 0 {
                done = true;
            } else {
                i = i + 1;
            }
        } else if t.len() > 0 {
            done = true;
        } else {
            i = i + 1;
        }
    }
    proof {
        if !done {
            assert(spec_lead_py(lv, i as int, in_triple, q_double, out.deep_view())
                == out.deep_view());
        }
    }
    out
}

/// Collect the leading JS/TS block comment or line-comment header.
#[verifier::rlimit(100)]
fn lead_js(lines: &Vec<Vec<u8>>) -> (r: Vec<Vec<u8>>)
    ensures
        r.deep_view() == spec_lead_js(lines.deep_view(), 0, false, Seq::empty()),
{
    let ghost lv = lines.deep_view();
    let mut out: Vec<Vec<u8>> = Vec::new();
    let mut i: usize = 0;
    let mut in_block = false;
    let mut done = false;
    proof {
        assert(out.deep_view() =~= Seq::<Seq<u8>>::empty());
    }
    while !done && i < lines.len() && i < 160
        invariant
            i <= lv.len(),
            lv == lines.deep_view(),
            lv.len() == lines@.len(),
            !done ==> spec_lead_js(lv, i as int, in_block, out.deep_view()) == spec_lead_js(
                lv,
                0,
                false,
                Seq::empty(),
            ),
            done ==> out.deep_view() == spec_lead_js(lv, 0, false, Seq::empty()),
        decreases lv.len() - i + if done {
            0int
        } else {
            1int
        },
    {
        proof {
            reveal_strlit("/**");
            reveal_strlit("*/");
            reveal_strlit("*");
            reveal_strlit("// ");
            reveal_strlit("//\t");
            reveal_strlit("//");
            reveal_strlit("/*");
            assert(lv[i as int] == lines@[i as int]@);
        }
        let t = trim_start(lines[i].as_slice());
        let ghost o0 = out.deep_view();
        if !in_block && starts_with(t.as_slice(), lit("/**").as_slice()) {
            if contains_sub(t.as_slice(), lit("*/").as_slice()) {
                let a = strip_repeat(t.as_slice(), lit("/**").as_slice());
                let b = strip_repeat_end(a.as_slice(), lit("*/").as_slice());
                let c = trim(b.as_slice());
                let d = strip_repeat(c.as_slice(), lit("*").as_slice());
                let inner = trim(d.as_slice());
                if inner.len() > 0 {
                    let ghost iv = inner@;
                    out.push(inner);
                    proof {
                        assert(out.deep_view() =~~= o0.push(iv));
                    }
                }
                done = true;
            } else {
                in_block = true;
                i = i + 1;
            }
        } else if in_block {
            if contains_sub(t.as_slice(), lit("*/").as_slice()) {
                let a = strip_repeat_end(t.as_slice(), lit("*/").as_slice());
                let b = trim(a.as_slice());
                let c = strip_repeat(b.as_slice(), lit("*").as_slice());
                let inner = trim(c.as_slice());
                if inner.len() > 0 {
                    let ghost iv = inner@;
                    out.push(inner);
                    proof {
                        assert(out.deep_view() =~~= o0.push(iv));
                    }
                }
                done = true;
            } else {
                let a = strip_repeat(t.as_slice(), lit("*").as_slice());
                let inner = trim(a.as_slice());
                if inner.len() > 0 {
                    let ghost iv = inner@;
                    out.push(inner);
                    proof {
                        assert(out.deep_view() =~~= o0.push(iv));
                    }
                }
                i = i + 1;
            }
        } else if starts_with(t.as_slice(), lit("// ").as_slice()) || starts_with(
            t.as_slice(),
            lit("//\t").as_slice(),
        ) {
            let a = strip_repeat(t.as_slice(), lit("//").as_slice());
            let msg = trim(a.as_slice());
            let ghost mv = msg@;
            out.push(msg);
            proof {
                assert(out.deep_view() =~~= o0.push(mv));
            }
            i = i + 1;
        } else if out.len() > 0 && !starts_with(t.as_slice(), lit("//").as_slice()) && t.len()
            > 0 {
            done = true;
        } else if out.len() == 0 && t.len() > 0 && !starts_with(
            t.as_slice(),
            lit("//").as_slice(),
        ) && !starts_with(t.as_slice(), lit("/*").as_slice()) {
            done = true;
        } else {
            i = i + 1;
        }
    }
    proof {
        if !done {
            assert(spec_lead_js(lv, i as int, in_block, out.deep_view()) == out.deep_view());
        }
    }
    out
}

/// Collect the leading Markdown heading and its following prose line.
fn lead_md(lines: &Vec<Vec<u8>>) -> (r: Vec<Vec<u8>>)
    ensures
        r.deep_view() == spec_lead_md(lines.deep_view(), 0, Seq::empty()),
{
    let ghost lv = lines.deep_view();
    let mut out: Vec<Vec<u8>> = Vec::new();
    let mut i: usize = 0;
    let mut done = false;
    proof {
        assert(out.deep_view() =~= Seq::<Seq<u8>>::empty());
    }
    while !done && i < lines.len() && i < 60
        invariant
            i <= lv.len(),
            lv == lines.deep_view(),
            lv.len() == lines@.len(),
            !done ==> spec_lead_md(lv, i as int, out.deep_view()) == spec_lead_md(
                lv,
                0,
                Seq::empty(),
            ),
            done ==> out.deep_view() == spec_lead_md(lv, 0, Seq::empty()),
        decreases lv.len() - i + if done {
            0int
        } else {
            1int
        },
    {
        proof {
            reveal_strlit("# ");
            reveal_strlit("#");
            assert(lv[i as int] == lines@[i as int]@);
        }
        let t = trim(lines[i].as_slice());
        let ghost o0 = out.deep_view();
        if starts_with(t.as_slice(), lit("# ").as_slice()) {
            let a = strip_repeat(t.as_slice(), lit("# ").as_slice());
            let msg = trim(a.as_slice());
            let ghost mv = msg@;
            out.push(msg);
            proof {
                assert(out.deep_view() =~~= o0.push(mv));
            }
            i = i + 1;
        } else if out.len() > 0 {
            if t.len() > 0 {
                let ghost tv = t@;
                out.push(t);
                proof {
                    assert(out.deep_view() =~~= o0.push(tv));
                }
            }
            done = true;
        } else if t.len() > 0 && !starts_with(t.as_slice(), lit("#").as_slice()) {
            done = true;
        } else {
            i = i + 1;
        }
    }
    proof {
        if !done {
            assert(spec_lead_md(lv, i as int, out.deep_view()) == out.deep_view());
        }
    }
    out
}

/// Collect the leading comment header of any other text.
fn lead_generic(lines: &Vec<Vec<u8>>) -> (r: Vec<Vec<u8>>)
    ensures
        r.deep_view() == spec_lead_generic(lines.deep_view(), 0, Seq::empty()),
{
    let ghost lv = lines.deep_view();
    let mut out: Vec<Vec<u8>> = Vec::new();
    let mut i: usize = 0;
    let mut done = false;
    proof {
        assert(out.deep_view() =~= Seq::<Seq<u8>>::empty());
    }
    while !done && i < lines.len() && i < 40
        invariant
            i <= lv.len(),
            lv == lines.deep_view(),
            lv.len() == lines@.len(),
            !done ==> spec_lead_generic(lv, i as int, out.deep_view()) == spec_lead_generic(
                lv,
                0,
                Seq::empty(),
            ),
            done ==> out.deep_view() == spec_lead_generic(lv, 0, Seq::empty()),
        decreases lv.len() - i + if done {
            0int
        } else {
            1int
        },
    {
        proof {
            reveal_strlit("//");
            reveal_strlit("# ");
            reveal_strlit("--");
            assert(lv[i as int] == lines@[i as int]@);
        }
        let t = trim(lines[i].as_slice());
        let ghost o0 = out.deep_view();
        if starts_with(t.as_slice(), lit("//").as_slice()) || starts_with(
            t.as_slice(),
            lit("# ").as_slice(),
        ) || starts_with(t.as_slice(), lit("--").as_slice()) {
            let a = strip_repeat(t.as_slice(), lit("//").as_slice());
            let b = strip_repeat(a.as_slice(), lit("--").as_slice());
            let msg = trim(b.as_slice());
            let ghost mv = msg@;
            out.push(msg);
            proof {
                assert(out.deep_view() =~~= o0.push(mv));
            }
            i = i + 1;
        } else if t.len() > 0 && out.len() > 0 {
            let ghost tv = t@;
            out.push(t);
            proof {
                assert(out.deep_view() =~~= o0.push(tv));
            }
            done = true;
        } else if out.len() > 0 && t.len() == 0 {
            done = true;
        } else if t.len() > 0 && out.len() == 0 {
            done = true;
        } else {
            i = i + 1;
        }
    }
    proof {
        if !done {
            assert(spec_lead_generic(lv, i as int, out.deep_view()) == out.deep_view());
        }
    }
    out
}


/// The interesting lines kept from the scan, in original order: each scoring
/// line (trailing whitespace dropped) followed by one nonempty context line,
/// under the line budget and the early-stop cap.
pub open spec fn spec_kept(
    lines: Seq<Seq<u8>>,
    lang: Seq<u8>,
    i: int,
    seen: int,
    acc: Seq<Seq<u8>>,
) -> Seq<Seq<u8>>
    decreases lines.len() - i,
{
    if i < 0 || i >= lines.len() || acc.len() >= MAX_KEEP_LINES || seen >= MAX_INTERESTING_SEEN {
        acc
    } else {
        let line = spec_trim(lines[i]);
        if line.len() > 0 && spec_score_line(line, lang) > 0 {
            let a1 = acc.push(spec_trim_end(lines[i]));
            let a2 = if i + 1 < lines.len() && spec_trim_end(lines[i + 1]).len() > 0 {
                a1.push(spec_trim_end(lines[i + 1]))
            } else {
                a1
            };
            spec_kept(lines, lang, i + 1, seen + 1, a2)
        } else {
            spec_kept(lines, lang, i + 1, seen, acc)
        }
    }
}

/// Append lines under the budget, dropping a line equal to its predecessor.
pub open spec fn spec_push_lines(src: Seq<Seq<u8>>, j: int, acc: Seq<Seq<u8>>) -> Seq<Seq<u8>>
    decreases src.len() - j,
{
    if j < 0 || j >= src.len() || acc.len() >= MAX_KEEP_LINES {
        acc
    } else if acc.len() > 0 && acc[acc.len() - 1] == src[j] {
        spec_push_lines(src, j + 1, acc)
    } else {
        spec_push_lines(src, j + 1, acc.push(src[j]))
    }
}

/// The clean head fallback: the first lines, trailing whitespace dropped.
pub open spec fn spec_head_lines(lines: Seq<Seq<u8>>, i: int, acc: Seq<Seq<u8>>) -> Seq<Seq<u8>>
    decreases lines.len() - i,
{
    if i < 0 || i >= lines.len() || i >= 40 {
        acc
    } else {
        spec_head_lines(lines, i + 1, acc.push(spec_trim_end(lines[i])))
    }
}

/// The extracted snippet: the leading documentation block, then the scored
/// lines with context, joined under the line budget; a clean head slice when
/// nothing scored and no documentation led the file.
pub open spec fn spec_extract_snippet(content: Seq<u8>, lang: Seq<u8>) -> Seq<u8> {
    let head = if content.len() > MAX_SCAN_BYTES {
        content.take(MAX_SCAN_BYTES as int)
    } else {
        content
    };
    let all = spec_lines(head);
    let capped = if all.len() > MAX_SCAN_LINES {
        all.take(MAX_SCAN_LINES as int)
    } else {
        all
    };
    let out0 = match spec_leading_doc_block(all, lang) {
        Some(d) => spec_push_lines(d, 0, Seq::empty()),
        None => Seq::empty(),
    };
    if out0.len() >= MAX_KEEP_LINES {
        spec_join_nl(out0)
    } else {
        let kept = spec_kept(capped, lang, 0, 0, Seq::empty());
        if kept.len() == 0 && out0.len() == 0 {
            spec_join_nl(spec_head_lines(capped, 0, Seq::empty()))
        } else {
            spec_join_nl(spec_push_lines(kept, 0, out0))
        }
    }
}

/// Extract a compact, high-signal snippet of the content's head window.
#[verifier::rlimit(100)]
pub fn extract_relevant_snippet(content: &[u8], lang: &[u8]) -> (r: Vec<u8>)
    ensures
        r@ == spec_extract_snippet(content@, lang@),
{
    proof {
        reveal_strlit("rust");
        reveal_strlit("python");
        reveal_strlit("typescript");
        reveal_strlit("ts");
        reveal_strlit("javascript");
        reveal_strlit("js");
        reveal_strlit("markdown");
        reveal_strlit("md");
    }
    let head_end = if content.len() > MAX_SCAN_BYTES {
        MAX_SCAN_BYTES
    } else {
        content.len()
    };
    let head = sub_vec(content, 0, head_end);
    proof {
        assert(head@ == (if content@.len() > MAX_SCAN_BYTES {
            content@.take(MAX_SCAN_BYTES as int)
        } else {
            content@
        }));
    }
    let all = split_lines(head.as_slice());
    let ghost allv = all.deep_view();
    // cap the scan at the line budget
    let mut capped: Vec<Vec<u8>> = Vec::new();
    let cap_n = if all.len() > MAX_SCAN_LINES {
        MAX_SCAN_LINES
    } else {
        all.len()
    };
    let mut k: usize = 0;
    while k < cap_n
        invariant
            k <= cap_n <= allv.len(),
            allv == all.deep_view(),
            allv.len() == all@.len(),
            capped.deep_view() == allv.take(cap_n as int).take(k as int),
        decreases cap_n - k,
    {
        let c = crate::text::copy_bytes(all[k].as_slice());
        let ghost cv = c@;
        let ghost prev = capped.deep_view();
        capped.push(c);
        proof {
            assert(allv[k as int] == all@[k as int]@);
            assert(capped.deep_view() =~~= prev.push(cv));
            assert(capped.deep_view() =~= allv.take(cap_n as int).take(k + 1));
        }
        k = k + 1;
    }
    let ghost cappedv = capped.deep_view();
    proof {
        assert(cappedv =~= (if allv.len() > MAX_SCAN_LINES {
            allv.take(MAX_SCAN_LINES as int)
        } else {
            allv
        }));
    }
    // the leading documentation block, language-aware
    let lg = to_lower(lang);
    let g = lg.as_slice();
    let raw = if crate::text::eq_bytes(g, lit("rust").as_slice()) {
        lead_rust(&all)
    } else if crate::text::eq_bytes(g, lit("python").as_slice()) {
        lead_py(&all)
    } else if crate::text::eq_bytes(g, lit("typescript").as_slice()) || crate::text::eq_bytes(
        g,
        lit("ts").as_slice(),
    ) || crate::text::eq_bytes(g, lit("javascript").as_slice()) || crate::text::eq_bytes(
        g,
        lit("js").as_slice(),
    ) {
        lead_js(&all)
    } else if crate::text::eq_bytes(g, lit("markdown").as_slice()) || crate::text::eq_bytes(
        g,
        lit("md").as_slice(),
    ) {
        lead_md(&all)
    } else {
        lead_generic(&all)
    };
    let mut out: Vec<Vec<u8>> = Vec::new();
    if raw.len() > 0 {
        // normalise the block and let it open the snippet
        let ghost rawv = raw.deep_view();
        let mut doc: Vec<Vec<u8>> = Vec::new();
        let mut di: usize = 0;
        proof {
            assert(doc.deep_view() =~= Seq::<Seq<u8>>::empty());
        }
        while di < raw.len() && doc.len() < MAX_DOC_LINES
            invariant
                di <= rawv.len(),
                rawv == raw.deep_view(),
                rawv.len() == raw@.len(),
                doc.deep_view().len() == doc@.len(),
                spec_normalize_doc(rawv, di as int, doc.deep_view()) == spec_normalize_doc(
                    rawv,
                    0,
                    Seq::empty(),
                ),
            decreases rawv.len() - di,
        {
            proof {
                assert(rawv[di as int] == raw@[di as int]@);
            }
            let t = trim(raw[di].as_slice());
            if t.len() > 0 {
                let ghost tv = t@;
                let ghost prev = doc.deep_view();
                doc.push(t);
                proof {
                    assert(doc.deep_view() =~~= prev.push(tv));
                }
            }
            di = di + 1;
        }
        proof {
            assert(spec_normalize_doc(rawv, di as int, doc.deep_view()) == doc.deep_view());
        }
        out = push_lines(Vec::new(), &doc);
        proof {
            assert(spec_leading_doc_block(allv, lang@) == Some(spec_normalize_doc(
                rawv,
                0,
                Seq::empty(),
            )));
        }
    } else {
        proof {
            assert(out.deep_view() =~= Seq::<Seq<u8>>::empty());
            assert(spec_leading_doc_block(allv, lang@) is None);
        }
    }
    if out.len() >= MAX_KEEP_LINES {
        return join_lines(&out);
    }
    // score the capped lines and keep hits with one line of context
    let ghost out0 = out.deep_view();
    let mut kept: Vec<Vec<u8>> = Vec::new();
    let mut seen: usize = 0;
    let mut i: usize = 0;
    proof {
        assert(kept.deep_view() =~= Seq::<Seq<u8>>::empty());
    }
    while i < capped.len() && kept.len() < MAX_KEEP_LINES && seen < MAX_INTERESTING_SEEN
        invariant
            i <= cappedv.len(),
            cappedv == capped.deep_view(),
            cappedv.len() == capped@.len(),
            kept.deep_view().len() == kept@.len(),
            seen <= MAX_INTERESTING_SEEN,
            spec_kept(cappedv, lang@, i as int, seen as int, kept.deep_view()) == spec_kept(
                cappedv,
                lang@,
                0,
                0,
                Seq::empty(),
            ),
        decreases cappedv.len() - i,
    {
        proof {
            assert(cappedv[i as int] == capped@[i as int]@);
        }
        let line = trim(capped[i].as_slice());
        if line.len() > 0 && score_line(line.as_slice(), lang) > 0 {
            let hit = trim_end(capped[i].as_slice());
            let ghost hv = hit@;
            let ghost prev = kept.deep_view();
            kept.push(hit);
            proof {
                assert(kept.deep_view() =~~= prev.push(hv));
            }
            if i + 1 < capped.len() {
                proof {
                    assert(cappedv[i + 1] == capped@[i + 1]@);
                }
                let ctx = trim_end(capped[i + 1].as_slice());
                if ctx.len() > 0 {
                    let ghost xv = ctx@;
                    let ghost prev2 = kept.deep_view();
                    kept.push(ctx);
                    proof {
                        assert(kept.deep_view() =~~= prev2.push(xv));
                    }
                }
            }
            seen = seen + 1;
        }
        i = i + 1;
    }
    proof {
        assert(spec_kept(cappedv, lang@, i as int, seen as int, kept.deep_view())
            == kept.deep_view());
    }
    if kept.len() == 0 && out.len() == 0 {
        // nothing scored and no documentation: clean head slice
        let mut headl: Vec<Vec<u8>> = Vec::new();
        let mut h: usize = 0;
        proof {
            assert(headl.deep_view() =~= Seq::<Seq<u8>>::empty());
        }
        while h < capped.len() && h < 40
            invariant
                h <= cappedv.len(),
                cappedv == capped.deep_view(),
                cappedv.len() == capped@.len(),
                spec_head_lines(cappedv, h as int, headl.deep_view()) == spec_head_lines(
                    cappedv,
                    0,
                    Seq::empty(),
                ),
            decreases cappedv.len() - h,
        {
            proof {
                assert(cappedv[h as int] == capped@[h as int]@);
            }
            let t = trim_end(capped[h].as_slice());
            let ghost tv = t@;
            let ghost prev = headl.deep_view();
            headl.push(t);
            proof {
                assert(headl.deep_view() =~~= prev.push(tv));
            }
            h = h + 1;
        }
        proof {
            assert(spec_head_lines(cappedv, h as int, headl.deep_view()) == headl.deep_view());
        }
        return join_lines(&headl);
    }
    let merged = push_lines(out, &kept);
    join_lines(&merged)
}

/// Append `src` onto `acc` under the budget, skipping adjacent repeats.
fn push_lines(acc: Vec<Vec<u8>>, src: &Vec<Vec<u8>>) -> (r: Vec<Vec<u8>>)
    ensures
        r.deep_view() == spec_push_lines(src.deep_view(), 0, acc.deep_view()),
{
    let ghost sv = src.deep_view();
    let ghost a0 = acc.deep_view();
    let mut out = acc;
    let mut j: usize = 0;
    while j < src.len() && out.len() < MAX_KEEP_LINES
        invariant
            j <= sv.len(),
            sv == src.deep_view(),
            sv.len() == src@.len(),
            out.deep_view().len() == out@.len(),
            spec_push_lines(sv, j as int, out.deep_view()) == spec_push_lines(sv, 0, a0),
        decreases sv.len() - j,
    {
        proof {
            assert(sv[j as int] == src@[j as int]@);
        }
        let dup = if out.len() > 0 {
            crate::text::eq_bytes(out[out.len() - 1].as_slice(), src[j].as_slice())
        } else {
            false
        };
        proof {
            if out@.len() > 0 {
                assert(out.deep_view()[out.deep_view().len() - 1] == out@[out@.len() - 1]@);
            }
        }
        if !dup {
            let c = crate::text::copy_bytes(src[j].as_slice());
            let ghost cv = c@;
            let ghost prev = out.deep_view();
            out.push(c);
            proof {
                assert(out.deep_view() =~~= prev.push(cv));
            }
        }
        j = j + 1;
    }
    proof {
        assert(spec_push_lines(sv, j as int, out.deep_view()) == out.deep_view());
    }
    out
}

/// Join lines with newlines.
fn join_lines(v: &Vec<Vec<u8>>) -> (r: Vec<u8>)
    ensures
        r@ == spec_join_nl(v.deep_view()),
{
    crate::text::join_nl(v)
}

} // verus!
