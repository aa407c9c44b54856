//! Slugs, filenames, byte formatting, language mapping, tagging, and the
//! binary-content heuristic.
use vstd::prelude::*;

use crate::record::spec_count_nonblank;
use crate::text::{
    ascii_bytes, contains_byte, contains_sub, copy_bytes, ends_with, eq_bytes, lit, push_all,
    spec_decimal, spec_lines, split_lines, sub_vec, to_lower, trim, usize_to_decimal, NUL,
};

verus! {

/// Slug of a project name: lowercased letters and digits, `-` and `_` kept,
/// anything else an underscore, runs of underscores collapsed, edges trimmed,
/// with a fixed fallback for an empty result.
pub open spec fn spec_slugify(s: Seq<u8>) -> Seq<u8> {
    let folded = spec_slug_fold(s, 0, Seq::empty());
    let trimmed = spec_slug_rtrim(folded);
    if trimmed.len() == 0 {
        ascii_bytes("project"@)
    } else {
        trimmed
    }
}

/// One left-to-right pass: map characters, drop leading or doubled `_`.
pub open spec fn spec_slug_fold(s: Seq<u8>, i: int, acc: Seq<u8>) -> Seq<u8>
    decreases s.len() - i,
{
    if i < 0 || i >= s.len() {
        acc
    } else {
        let c = spec_slug_map(s[i]);
        if c == 95 && (acc.len() == 0 || acc[acc.len() - 1] == 95) {
            spec_slug_fold(s, i + 1, acc)
        } else {
            spec_slug_fold(s, i + 1, acc.push(c))
        }
    }
}

/// Map one byte for the slug: keep lowercase letters, digits, `-`, `_`; fold
/// uppercase; everything else becomes `_`.
pub open spec fn spec_slug_map(b: u8) -> u8 {
    if 65 <= b && b <= 90 {
        (b + 32) as u8
    } else if (97 <= b && b <= 122) || (48 <= b && b <= 57) || b == 45 || b == 95 {
        b
    } else {
        95u8
    }
}

/// Drop trailing `_` and `-`.
pub open spec fn spec_slug_rtrim(s: Seq<u8>) -> Seq<u8>
    decreases s.len(),
{
    if s.len() > 0 && (s[s.len() - 1] == 95 || s[s.len() - 1] == 45) {
        spec_slug_rtrim(s.take(s.len() - 1))
    } else {
        s
    }
}

/// Make a name safe for filenames: `[a-z0-9_-]`, collapsed and trimmed.
pub fn slugify(s: &[u8]) -> (r: Vec<u8>)
    ensures
        r@ == spec_slugify(s@),
        r@.len() > 0,
{
    proof {
        reveal_strlit("project");
    }
    let mut acc: Vec<u8> = Vec::new();
    let mut i: usize = 0;
    while i < s.len()
        invariant
            i <= s@.len(),
            spec_slug_fold(s@, i as int, acc@) == spec_slug_fold(s@, 0, Seq::empty()),
        decreases s@.len() - i,
    {
        let b = s[i];
        let c: u8 = if 65 <= b && b <= 90 {
            b + 32
        } else if (97 <= b && b <= 122) || (48 <= b && b <= 57) || b == 45 || b == 95 {
            b
        } else {
            95
        };
        proof {
            assert(c == spec_slug_map(s@[i as int]));
        }
        if c == 95 && (acc.len() == 0 || acc[acc.len() - 1] == 95) {
        } else {
            acc.push(c);
        }
        i = i + 1;
    }
    let mut b = acc.len();
    proof {
        assert(acc@.take(acc@.len() as int) =~= acc@);
    }
    while b > 0 && (acc[b - 1] == 95 || acc[b - 1] == 45)
        invariant
            b <= acc@.len(),
            spec_slug_rtrim(acc@.take(b as int)) == spec_slug_rtrim(acc@),
        decreases b,
    {
        proof {
            assert(acc@.take(b as int).take(b - 1) =~= acc@.take(b - 1));
        }
        b = b - 1;
    }
    proof {
        assert(acc@.take(acc@.len() as int) =~= acc@);
        if b > 0 {
            assert(spec_slug_rtrim(acc@.take(b as int)) == acc@.take(b as int));
        } else {
            assert(acc@.take(0) =~= Seq::<u8>::empty());
            assert(spec_slug_rtrim(acc@.take(0)) =~= acc@.take(0));
        }
    }
    if b == 0 {
        lit("project")
    } else {
        let r = sub_vec(acc.as_slice(), 0, b);
        proof {
            assert(r@ =~= acc@.take(b as int));
        }
        r
    }
}

/// Slug of the last path component, with the fixed fallback.
pub fn project_name_from_path(last_component: &[u8]) -> (r: Vec<u8>)
    ensures
        r@ == spec_slugify(last_component@),
{
    slugify(last_component)
}

/// Output filename: slug, `_`, stem, `.`, extension without leading dots.
pub fn prefixed_filename(slug: &[u8], stem: &[u8], ext: &[u8]) -> (r: Vec<u8>)
    ensures
        r@ == slug@ + ascii_bytes("_"@) + stem@ + ascii_bytes("."@) + spec_strip_dots(ext@),
{
    proof {
        reveal_strlit("_");
        reveal_strlit(".");
    }
    let mut out = copy_bytes(slug);
    push_all(&mut out, lit("_").as_slice());
    push_all(&mut out, stem);
    push_all(&mut out, lit(".").as_slice());
    let mut a: usize = 0;
    while a < ext.len() && ext[a] == 46
        invariant
            a <= ext@.len(),
            forall|j: int| 0 <= j < a ==> ext@[j] == 46,
        decreases ext@.len() - a,
    {
        a = a + 1;
    }
    let tail = sub_vec(ext, a, ext.len());
    push_all(&mut out, tail.as_slice());
    proof {
        lemma_strip_dots(ext@, a as int);
    }
    out
}

/// The extension with leading dots removed.
pub open spec fn spec_strip_dots(s: Seq<u8>) -> Seq<u8>
    decreases s.len(),
{
    if s.len() > 0 && s[0] == 46 {
        spec_strip_dots(s.skip(1))
    } else {
        s
    }
}

proof fn lemma_strip_dots(s: Seq<u8>, a: int)
    requires
        0 <= a <= s.len(),
        forall|j: int| 0 <= j < a ==> s[j] == 46,
        a == s.len() || s[a] != 46,
    ensures
        spec_strip_dots(s) == s.skip(a),
    decreases a,
{
    if a > 0 {
        assert(s.skip(1).skip(a - 1) =~= s.skip(a));
        lemma_strip_dots(s.skip(1), a - 1);
    } else {
        assert(s.skip(0) =~= s);
    }
}

/// Human-friendly size: plain bytes under one thousand, then rounded
/// kilo/mega/giga/tera/peta steps.
pub open spec fn spec_humanize(n: int) -> Seq<u8> {
    if n < 1000 {
        spec_decimal(n) + ascii_bytes(" B"@)
    } else {
        spec_humanize_step(n, 0)
    }
}

pub open spec fn spec_humanize_step(v: int, idx: int) -> Seq<u8>
    decreases 5 - idx,
{
    if v >= 1000 && idx < 5 {
        spec_humanize_step((v + 500) / 1000, idx + 1)
    } else {
        spec_decimal(v) + ascii_bytes(" "@) + spec_unit_name(idx)
    }
}

pub open spec fn spec_unit_name(idx: int) -> Seq<u8> {
    if idx <= 0 {
        ascii_bytes("B"@)
    } else if idx == 1 {
        ascii_bytes("KB"@)
    } else if idx == 2 {
        ascii_bytes("MB"@)
    } else if idx == 3 {
        ascii_bytes("GB"@)
    } else if idx == 4 {
        ascii_bytes("TB"@)
    } else {
        ascii_bytes("PB"@)
    }
}

/// Render a byte count for people: `999 B`, `2 KB`, and so on upward.
pub fn humanize_bytes(n: u64) -> (r: Vec<u8>)
    ensures
        r@ == spec_humanize(n as int),
{
    proof {
        reveal_strlit(" B");
        reveal_strlit(" ");
        reveal_strlit("B");
        reveal_strlit("KB");
        reveal_strlit("MB");
        reveal_strlit("GB");
        reveal_strlit("TB");
        reveal_strlit("PB");
    }
    if n < 1000 {
        let mut out = u64_to_decimal(n);
        push_all(&mut out, lit(" B").as_slice());
        return out;
    }
    let mut v: u64 = n;
    let mut idx: usize = 0;
    while v >= 1000 && idx < 5
        invariant
            idx <= 5,
            spec_humanize_step(v as int, idx as int) == spec_humanize_step(n as int, 0),
        decreases 5 - idx,
    {
        let ghost v0 = v as int;
        let w = v / 1000;
        let rem = v % 1000;
        v = if rem >= 500 {
            w + 1
        } else {
            w
        };
        proof {
            assert(v as int == (v0 + 500) / 1000);
        }
        idx = idx + 1;
    }
    let mut out = u64_to_decimal(v);
    push_all(&mut out, lit(" ").as_slice());
    let unit = if idx == 0 {
        lit("B")
    } else if idx == 1 {
        lit("KB")
    } else if idx == 2 {
        lit("MB")
    } else if idx == 3 {
        lit("GB")
    } else if idx == 4 {
        lit("TB")
    } else {
        lit("PB")
    };
    push_all(&mut out, unit.as_slice());
    out
}

/// Render a 64-bit integer in decimal.
fn u64_to_decimal(n: u64) -> (r: Vec<u8>)
    ensures
        r@ == spec_decimal(n as int),
    decreases n,
{
    if n < 10 {
        let mut out: Vec<u8> = Vec::new();
        out.push(48 + (n as u8));
        proof {
            assert(out@ =~= spec_decimal(n as int));
        }
        out
    } else {
        let mut out = u64_to_decimal(n / 10);
        out.push(48 + ((n % 10) as u8));
        proof {
            assert(out@ =~= spec_decimal(n as int));
        }
        out
    }
}

/// Count nonblank lines.
pub fn count_loc(text: &[u8]) -> (r: usize)
    ensures
        r == spec_count_nonblank(spec_lines(text@)),
{
    let lines = split_lines(text);
    let ghost lv = lines.deep_view();
    let mut nonblank: usize = 0;
    let mut i: usize = 0;
    while i < lines.len()
        invariant
            i <= lines@.len(),
            lv == lines.deep_view(),
            lv.len() == lines@.len(),
            nonblank == spec_count_nonblank(lv.take(i as int)),
            nonblank <= i,
        decreases lines@.len() - i,
    {
        let t = trim(lines[i].as_slice());
        proof {
            assert(lv[i as int] == lines@[i as int]@);
            assert(lv.take(i + 1).take(i as int) =~= lv.take(i as int));
            assert(lv.take(i + 1)[i as int] == lv[i as int]);
        }
        if t.len() > 0 {
            nonblank = nonblank + 1;
        }
        i = i + 1;
    }
    proof {
        assert(lv.take(lines@.len() as int) =~= lv);
    }
    nonblank
}

/// Whether std's UTF-8 decoder rejects the bytes with an error that carries
/// no recovery length (an input cut short mid-character): a function of the
/// bytes alone, in every process and on every machine.
pub uninterp spec fn spec_utf8_hard_error(b: Seq<u8>) -> bool;

/// Relies on std::str::from_utf8 and Utf8Error::error_len: decoding accepts a
/// slice exactly when it is valid UTF-8, and error_len() is None exactly when
/// the end of the input was reached unexpectedly; the outcome depends on the
/// bytes alone, so a valid window is never flagged.
#[verifier::external_body]
fn utf8_hard_error(window: &[u8]) -> (r: bool)
    ensures
        r == spec_utf8_hard_error(window@),
        vstd::utf8::valid_utf8(window@) ==> !r,
{
    match std::str::from_utf8(window) {
        Ok(_) => false,
        Err(e) => e.error_len().is_none(),
    }
}

/// Whether the sniffed window reads as binary: a NUL byte, or a hard UTF-8
/// failure with no recovery length.
pub open spec fn spec_is_binary(b: Seq<u8>) -> bool {
    let w = spec_window(b);
    (exists|j: int| 0 <= j < w.len() && w[j] == NUL) || spec_utf8_hard_error(w)
}

/// Cheap binary sniff over a bounded window: a NUL byte, or a UTF-8 failure
/// with no recovery length, marks the content as binary.
pub fn is_probably_binary(bytes: &[u8]) -> (r: bool)
    ensures
        r == spec_is_binary(bytes@),
        (vstd::utf8::valid_utf8(spec_window(bytes@)) && !(exists|j: int|
            0 <= j < spec_window(bytes@).len() && spec_window(bytes@)[j] == NUL)) ==> !r,
{
    let window_end = if bytes.len() > 8192 {
        8192
    } else {
        bytes.len()
    };
    let window = sub_vec(bytes, 0, window_end);
    proof {
        assert(window@ =~= spec_window(bytes@));
    }
    if contains_byte(window.as_slice(), NUL) {
        return true;
    }
    utf8_hard_error(window.as_slice())
}

/// The sniffed prefix: at most the first eight kibibytes.
pub open spec fn spec_window(s: Seq<u8>) -> Seq<u8> {
    if s.len() > 8192 {
        s.take(8192)
    } else {
        s
    }
}

/// The language a lowercased filename maps to, by name or extension suffix;
/// anything unrecognised is plain text.
pub open spec fn spec_ext_to_lang(filename: Seq<u8>) -> Seq<u8> {
    let f = crate::text::spec_lower_seq(filename);
    if crate::text::spec_ends_with(f, ascii_bytes(".rs"@)) {
        ascii_bytes("rust"@)
    } else if f == ascii_bytes("makefile"@) || crate::text::spec_ends_with(
        f,
        ascii_bytes(".mk"@),
    ) {
        ascii_bytes("make"@)
    } else if crate::text::spec_ends_with(f, ascii_bytes(".toml"@)) {
        ascii_bytes("toml"@)
    } else if crate::text::spec_ends_with(f, ascii_bytes(".json"@)) || crate::text::spec_ends_with(
        f,
        ascii_bytes(".jsonl"@),
    ) {
        ascii_bytes("json"@)
    } else if crate::text::spec_ends_with(f, ascii_bytes(".yml"@)) || crate::text::spec_ends_with(
        f,
        ascii_bytes(".yaml"@),
    ) {
        ascii_bytes("yaml"@)
    } else if crate::text::spec_ends_with(f, ascii_bytes(".md"@)) {
        ascii_bytes("md"@)
    } else if crate::text::spec_ends_with(f, ascii_bytes(".sh"@)) {
        ascii_bytes("sh"@)
    } else if crate::text::spec_ends_with(f, ascii_bytes(".py"@)) {
        ascii_bytes("python"@)
    } else if crate::text::spec_ends_with(f, ascii_bytes(".tsx"@)) {
        ascii_bytes("tsx"@)
    } else if crate::text::spec_ends_with(f, ascii_bytes(".ts"@)) {
        ascii_bytes("ts"@)
    } else if crate::text::spec_ends_with(f, ascii_bytes(".jsx"@)) {
        ascii_bytes("jsx"@)
    } else if crate::text::spec_ends_with(f, ascii_bytes(".js"@)) {
        ascii_bytes("js"@)
    } else if crate::text::spec_ends_with(f, ascii_bytes(".go"@)) {
        ascii_bytes("go"@)
    } else if crate::text::spec_ends_with(f, ascii_bytes(".java"@)) {
        ascii_bytes("java"@)
    } else if crate::text::spec_ends_with(f, ascii_bytes(".kt"@)) {
        ascii_bytes("kotlin"@)
    } else if crate::text::spec_ends_with(f, ascii_bytes(".cpp"@)) || crate::text::spec_ends_with(
        f,
        ascii_bytes(".cc"@),
    ) || crate::text::spec_ends_with(f, ascii_bytes(".cxx"@)) {
        ascii_bytes("cpp"@)
    } else if crate::text::spec_ends_with(f, ascii_bytes(".hpp"@)) || crate::text::spec_ends_with(
        f,
        ascii_bytes(".h"@),
    ) {
        ascii_bytes("c_header"@)
    } else if crate::text::spec_ends_with(f, ascii_bytes(".c"@)) {
        ascii_bytes("c"@)
    } else if crate::text::spec_ends_with(f, ascii_bytes(".sql"@)) {
        ascii_bytes("sql"@)
    } else {
        ascii_bytes("txt"@)
    }
}

/// Canonical language label for a filename, by name or extension.
pub fn ext_to_lang(filename: &[u8]) -> (r: Vec<u8>)
    ensures
        r@ == spec_ext_to_lang(filename@),
        r@.len() > 0,
{
    proof {
        reveal_strlit("makefile");
        reveal_strlit(".rs");
        reveal_strlit(".mk");
        reveal_strlit(".toml");
        reveal_strlit(".json");
        reveal_strlit(".jsonl");
        reveal_strlit(".yml");
        reveal_strlit(".yaml");
        reveal_strlit(".md");
        reveal_strlit(".sh");
        reveal_strlit(".py");
        reveal_strlit(".ts");
        reveal_strlit(".tsx");
        reveal_strlit(".js");
        reveal_strlit(".jsx");
        reveal_strlit(".go");
        reveal_strlit(".java");
        reveal_strlit(".kt");
        reveal_strlit(".cpp");
        reveal_strlit(".cc");
        reveal_strlit(".cxx");
        reveal_strlit(".c");
        reveal_strlit(".h");
        reveal_strlit(".hpp");
        reveal_strlit(".sql");
        reveal_strlit("rust");
        reveal_strlit("make");
        reveal_strlit("toml");
        reveal_strlit("json");
        reveal_strlit("yaml");
        reveal_strlit("md");
        reveal_strlit("sh");
        reveal_strlit("python");
        reveal_strlit("ts");
        reveal_strlit("tsx");
        reveal_strlit("js");
        reveal_strlit("jsx");
        reveal_strlit("go");
        reveal_strlit("java");
        reveal_strlit("kotlin");
        reveal_strlit("cpp");
        reveal_strlit("c");
        reveal_strlit("c_header");
        reveal_strlit("sql");
        reveal_strlit("txt");
    }
    let fv = to_lower(filename);
    let f = fv.as_slice();
    if ends_with(f, lit(".rs").as_slice()) {
        lit("rust")
    } else if eq_bytes(f, lit("makefile").as_slice()) || ends_with(f, lit(".mk").as_slice()) {
        lit("make")
    } else if ends_with(f, lit(".toml").as_slice()) {
        lit("toml")
    } else if ends_with(f, lit(".json").as_slice()) || ends_with(f, lit(".jsonl").as_slice()) {
        lit("json")
    } else if ends_with(f, lit(".yml").as_slice()) || ends_with(f, lit(".yaml").as_slice()) {
        lit("yaml")
    } else if ends_with(f, lit(".md").as_slice()) {
        lit("md")
    } else if ends_with(f, lit(".sh").as_slice()) {
        lit("sh")
    } else if ends_with(f, lit(".py").as_slice()) {
        lit("python")
    } else if ends_with(f, lit(".tsx").as_slice()) {
        lit("tsx")
    } else if ends_with(f, lit(".ts").as_slice()) {
        lit("ts")
    } else if ends_with(f, lit(".jsx").as_slice()) {
        lit("jsx")
    } else if ends_with(f, lit(".js").as_slice()) {
        lit("js")
    } else if ends_with(f, lit(".go").as_slice()) {
        lit("go")
    } else if ends_with(f, lit(".java").as_slice()) {
        lit("java")
    } else if ends_with(f, lit(".kt").as_slice()) {
        lit("kotlin")
    } else if ends_with(f, lit(".cpp").as_slice()) || ends_with(f, lit(".cc").as_slice())
        || ends_with(f, lit(".cxx").as_slice()) {
        lit("cpp")
    } else if ends_with(f, lit(".hpp").as_slice()) || ends_with(f, lit(".h").as_slice()) {
        lit("c_header")
    } else if ends_with(f, lit(".c").as_slice()) {
        lit("c")
    } else if ends_with(f, lit(".sql").as_slice()) {
        lit("sql")
    } else {
        lit("txt")
    }
}

/// The canonical form of a language label: trimmed, lowercased, aliases
/// folded to the small stable set, anything unknown kept lowercased.
pub open spec fn spec_normalize_lang(lang: Seq<u8>) -> Seq<u8> {
    let t = crate::text::spec_trim(lang);
    let l = crate::text::spec_lower_seq(t);
    if t.len() == 0 {
        Seq::empty()
    } else if l == ascii_bytes("rs"@) || l == ascii_bytes("rust"@) {
        ascii_bytes("rust"@)
    } else if l == ascii_bytes("py"@) || l == ascii_bytes("python"@) {
        ascii_bytes("python"@)
    } else if l == ascii_bytes("ts"@) || l == ascii_bytes("typescript"@) {
        ascii_bytes("ts"@)
    } else if l == ascii_bytes("tsx"@) {
        ascii_bytes("tsx"@)
    } else if l == ascii_bytes("js"@) || l == ascii_bytes("javascript"@) {
        ascii_bytes("js"@)
    } else if l == ascii_bytes("md"@) || l == ascii_bytes("markdown"@) {
        ascii_bytes("md"@)
    } else if l == ascii_bytes("yml"@) || l == ascii_bytes("yaml"@) {
        ascii_bytes("yaml"@)
    } else if l == ascii_bytes("json"@) || l == ascii_bytes("jsonl"@) {
        ascii_bytes("json"@)
    } else if l == ascii_bytes("sh"@) || l == ascii_bytes("bash"@) {
        ascii_bytes("sh"@)
    } else {
        l
    }
}

/// Normalise a language label to the small stable set.
pub fn normalize_lang(lang: &[u8]) -> (r: Vec<u8>)
    ensures
        r@ == spec_normalize_lang(lang@),
{
    proof {
        reveal_strlit("rs");
        reveal_strlit("rust");
        reveal_strlit("py");
        reveal_strlit("python");
        reveal_strlit("ts");
        reveal_strlit("typescript");
        reveal_strlit("tsx");
        reveal_strlit("js");
        reveal_strlit("javascript");
        reveal_strlit("md");
        reveal_strlit("markdown");
        reveal_strlit("yml");
        reveal_strlit("yaml");
        reveal_strlit("json");
        reveal_strlit("jsonl");
        reveal_strlit("sh");
        reveal_strlit("bash");
    }
    let t = trim(lang);
    if t.len() == 0 {
        return Vec::new();
    }
    let lv = to_lower(t.as_slice());
    let l = lv.as_slice();
    if eq_bytes(l, lit("rs").as_slice()) || eq_bytes(l, lit("rust").as_slice()) {
        lit("rust")
    } else if eq_bytes(l, lit("py").as_slice()) || eq_bytes(l, lit("python").as_slice()) {
        lit("python")
    } else if eq_bytes(l, lit("ts").as_slice()) || eq_bytes(l, lit("typescript").as_slice()) {
        lit("ts")
    } else if eq_bytes(l, lit("tsx").as_slice()) {
        lit("tsx")
    } else if eq_bytes(l, lit("js").as_slice()) || eq_bytes(l, lit("javascript").as_slice()) {
        lit("js")
    } else if eq_bytes(l, lit("md").as_slice()) || eq_bytes(l, lit("markdown").as_slice()) {
        lit("md")
    } else if eq_bytes(l, lit("yml").as_slice()) || eq_bytes(l, lit("yaml").as_slice()) {
        lit("yaml")
    } else if eq_bytes(l, lit("json").as_slice()) || eq_bytes(l, lit("jsonl").as_slice()) {
        lit("json")
    } else if eq_bytes(l, lit("sh").as_slice()) || eq_bytes(l, lit("bash").as_slice()) {
        lit("sh")
    } else {
        lv
    }
}

/// Heuristic tags from path and language: the normalised language, the top
/// directory, the extension, and coarse role markers, duplicate-free in
/// first-appearance order.
/// Index of the first occurrence of `b` in `s`, or the length if none.
pub open spec fn spec_first_byte(s: Seq<u8>, b: u8, i: int) -> int
    decreases s.len() - i,
{
    if i < 0 || i >= s.len() {
        s.len() as int
    } else if s[i] == b {
        i
    } else {
        spec_first_byte(s, b, i + 1)
    }
}

/// Index of the last occurrence of `b` in `s`, or `-1` if none.
pub open spec fn spec_rfind_byte(s: Seq<u8>, b: u8) -> int
    decreases s.len(),
{
    if s.len() == 0 {
        -1
    } else if s[s.len() - 1] == b {
        s.len() - 1
    } else {
        spec_rfind_byte(s.take(s.len() - 1), b)
    }
}

proof fn lemma_first_byte_at(s: Seq<u8>, b: u8, p: int)
    requires
        0 <= p < s.len(),
        s[p] == b,
        forall|j: int| 0 <= j < p ==> s[j] != b,
    ensures
        spec_first_byte(s, b, 0) == p,
{
    lemma_first_byte_step(s, b, 0, p);
}

pub proof fn lemma_first_byte_step(s: Seq<u8>, b: u8, i: int, p: int)
    requires
        0 <= i <= p < s.len(),
        s[p] == b,
        forall|j: int| i <= j < p ==> s[j] != b,
    ensures
        spec_first_byte(s, b, i) == p,
    decreases p - i,
{
    if i < p {
        lemma_first_byte_step(s, b, i + 1, p);
    }
}

pub proof fn lemma_first_byte_none(s: Seq<u8>, b: u8, i: int)
    requires
        0 <= i <= s.len(),
        forall|j: int| i <= j < s.len() ==> s[j] != b,
    ensures
        spec_first_byte(s, b, i) == s.len(),
    decreases s.len() - i,
{
    if i < s.len() {
        lemma_first_byte_none(s, b, i + 1);
    }
}

proof fn lemma_rfind_at(s: Seq<u8>, b: u8, p: int)
    requires
        0 <= p < s.len(),
        s[p] == b,
        forall|j: int| p < j < s.len() ==> s[j] != b,
    ensures
        spec_rfind_byte(s, b) == p,
    decreases s.len(),
{
    if s.len() - 1 > p {
        let t = s.take(s.len() - 1);
        assert(t[p] == s[p]);
        assert(forall|j: int| p < j < t.len() ==> (#[trigger] t[j]) == s[j]);
        lemma_rfind_at(t, b, p);
    }
}

proof fn lemma_rfind_none(s: Seq<u8>, b: u8)
    requires
        forall|j: int| 0 <= j < s.len() ==> s[j] != b,
    ensures
        spec_rfind_byte(s, b) == -1,
    decreases s.len(),
{
    if s.len() > 0 {
        let t = s.take(s.len() - 1);
        assert(forall|j: int| 0 <= j < t.len() ==> (#[trigger] t[j]) == s[j]);
        lemma_rfind_none(t, b);
    }
}

/// Heuristic tags from path and language: the normalised language first, the
/// top directory and the extension as structural markers, then coarse role
/// markers, duplicate-free in first-appearance order.
#[verifier::rlimit(100)]
pub fn infer_tags(path: &[u8], lang: &[u8]) -> (r: Vec<Vec<u8>>)
    ensures
        crate::helpers::spec_distinct(r.deep_view()),
        spec_normalize_lang(lang@).len() > 0 ==> r.deep_view().len() > 0 && r.deep_view()[0]
            == spec_normalize_lang(lang@),
        ({
            let f = crate::text::spec_lower_seq(path@);
            let p = spec_first_byte(f, 47, 0);
            (0 < p < f.len()) ==> crate::record::spec_has(
                r.deep_view(),
                ascii_bytes("dir:"@) + f.take(p),
            )
        }),
        ({
            let f = crate::text::spec_lower_seq(path@);
            let fname = f.skip(spec_rfind_byte(f, 47) + 1);
            let q = spec_rfind_byte(fname, 46);
            (0 <= q && q + 1 < fname.len()) ==> crate::record::spec_has(
                r.deep_view(),
                ascii_bytes("ext:"@) + fname.skip(q + 1),
            )
        }),
{
    proof {
        reveal_strlit("dir:");
        reveal_strlit("ext:");
        reveal_strlit("core");
        reveal_strlit("gui");
        reveal_strlit("ui");
        reveal_strlit("cli");
        reveal_strlit("main.rs");
        reveal_strlit("test");
        reveal_strlit("_test.rs");
        reveal_strlit("_tests.rs");
        reveal_strlit("bench");
        reveal_strlit("benchmark");
        reveal_strlit("docs");
        reveal_strlit("doc/");
        reveal_strlit(".md");
        reveal_strlit("script");
        reveal_strlit(".sh");
        reveal_strlit("lib.rs");
        reveal_strlit("crate:lib");
        reveal_strlit("crate:bin");
        reveal_strlit("_mod.rs");
        reveal_strlit("mod.rs");
        reveal_strlit("mod");
        reveal_strlit("_types.rs");
        reveal_strlit("types.rs");
        reveal_strlit("types");
        reveal_strlit("build");
        reveal_strlit("ci");
        reveal_strlit(".github");
        reveal_strlit("scan");
        reveal_strlit("chunk");
        reveal_strlit("map_view");
        reveal_strlit("project_map");
        reveal_strlit("map");
        reveal_strlit("tree_view");
        reveal_strlit("project_tree");
        reveal_strlit("tree");
        reveal_strlit("paste");
        reveal_strlit("snippet");
        reveal_strlit("/");
    }
    let ghost fv = crate::text::spec_lower_seq(path@);
    let ghost nlv = spec_normalize_lang(lang@);
    let full = to_lower(path);
    let f = full.as_slice();
    // structural head: language, top directory, extension
    let mut head: Vec<Vec<u8>> = Vec::new();
    let nl = normalize_lang(lang);
    if nl.len() > 0 {
        let ghost prev = head.deep_view();
        head.push(nl);
        proof {
            assert(head.deep_view() =~~= prev.push(nlv));
        }
    }
    let ghost di: int = head.deep_view().len() as int;
    let ghost dirtag = ascii_bytes("dir:"@) + fv.take(spec_first_byte(fv, 47, 0));
    match crate::text::find_byte(f, 47, 0) {
        Some(p) => {
            proof {
                lemma_first_byte_at(fv, 47, p as int);
            }
            if p > 0 {
                let mut t = lit("dir:");
                let top = sub_vec(f, 0, p);
                push_all(&mut t, top.as_slice());
                proof {
                    assert(t@ == dirtag);
                }
                let ghost prev = head.deep_view();
                head.push(t);
                proof {
                    assert(head.deep_view() =~~= prev.push(dirtag));
                }
            }
        },
        None => {
            proof {
                lemma_first_byte_none(fv, 47, 0);
            }
        },
    }
    let ghost hd2 = head.deep_view();
    let fname = match last_byte_pos(f, 47) {
        Some(p) => {
            proof {
                lemma_rfind_at(fv, 47, p as int);
            }
            sub_vec(f, p + 1, f.len())
        },
        None => {
            proof {
                lemma_rfind_none(fv, 47);
                assert(fv.skip(0) =~= fv);
            }
            copy_bytes(f)
        },
    };
    proof {
        assert(fname@ == fv.skip(spec_rfind_byte(fv, 47) + 1));
    }
    let ghost ei: int = head.deep_view().len() as int;
    let ghost exttag = ascii_bytes("ext:"@) + fname@.skip(spec_rfind_byte(fname@, 46) + 1);
    match last_byte_pos(fname.as_slice(), 46) {
        Some(p) => {
            proof {
                lemma_rfind_at(fname@, 46, p as int);
            }
            if p + 1 < fname.len() {
                let mut t = lit("ext:");
                let e = sub_vec(fname.as_slice(), p + 1, fname.len());
                push_all(&mut t, e.as_slice());
                proof {
                    assert(e@ =~= fname@.skip(p + 1));
                    assert(t@ == exttag);
                }
                let ghost prev = head.deep_view();
                head.push(t);
                proof {
                    assert(head.deep_view() =~~= prev.push(exttag));
                }
            }
        },
        None => {
            proof {
                lemma_rfind_none(fname@, 46);
            }
        },
    }
    let ghost headv = head.deep_view();
    // coarse role markers, collected separately and appended in order
    let mut extras: Vec<Vec<u8>> = Vec::new();
    if contains_sub(f, lit("core").as_slice()) {
        extras.push(lit("core"));
    }
    if contains_sub(f, lit("gui").as_slice()) || contains_sub(f, lit("ui").as_slice()) {
        extras.push(lit("ui"));
    }
    if contains_sub(f, lit("cli").as_slice()) || eq_bytes(fname.as_slice(), lit("main.rs").as_slice()) {
        extras.push(lit("cli"));
    }
    if contains_sub(f, lit("test").as_slice()) || ends_with(fname.as_slice(), lit("_test.rs").as_slice())
        || ends_with(fname.as_slice(), lit("_tests.rs").as_slice()) {
        extras.push(lit("test"));
    }
    if contains_sub(f, lit("bench").as_slice()) {
        extras.push(lit("bench"));
    }
    if contains_sub(f, lit("docs").as_slice()) || contains_sub(f, lit("doc/").as_slice())
        || ends_with(f, lit(".md").as_slice()) {
        extras.push(lit("docs"));
    }
    if contains_sub(f, lit("script").as_slice()) || ends_with(f, lit(".sh").as_slice()) {
        extras.push(lit("script"));
    }
    if eq_bytes(fname.as_slice(), lit("lib.rs").as_slice()) {
        extras.push(lit("crate:lib"));
    }
    if eq_bytes(fname.as_slice(), lit("main.rs").as_slice()) {
        extras.push(lit("crate:bin"));
    }
    if ends_with(fname.as_slice(), lit("_mod.rs").as_slice()) || eq_bytes(
        fname.as_slice(),
        lit("mod.rs").as_slice(),
    ) {
        extras.push(lit("mod"));
    }
    if ends_with(fname.as_slice(), lit("_types.rs").as_slice()) || eq_bytes(
        fname.as_slice(),
        lit("types.rs").as_slice(),
    ) {
        extras.push(lit("types"));
    }
    if contains_sub(f, lit("build").as_slice()) || contains_sub(f, lit("ci").as_slice())
        || contains_sub(f, lit(".github").as_slice()) {
        extras.push(lit("build"));
    }
    if contains_sub(f, lit("scan").as_slice()) {
        extras.push(lit("scan"));
    }
    if contains_sub(f, lit("chunk").as_slice()) {
        extras.push(lit("chunk"));
    }
    if contains_sub(f, lit("map_view").as_slice()) || contains_sub(
        f,
        lit("project_map").as_slice(),
    ) {
        extras.push(lit("map"));
    }
    if contains_sub(f, lit("tree_view").as_slice()) || contains_sub(
        f,
        lit("project_tree").as_slice(),
    ) {
        extras.push(lit("tree"));
    }
    if contains_sub(f, lit("paste").as_slice()) || contains_sub(f, lit("snippet").as_slice()) {
        extras.push(lit("paste"));
    }
    let mut tags = head;
    let mut k: usize = 0;
    proof {
        assert(extras.deep_view().take(0) =~= Seq::<Seq<u8>>::empty());
        assert(tags.deep_view() =~= headv + extras.deep_view().take(0));
    }
    while k < extras.len()
        invariant
            k <= extras@.len(),
            extras.deep_view().len() == extras@.len(),
            tags.deep_view() == headv + extras.deep_view().take(k as int),
        decreases extras@.len() - k,
    {
        let item = copy_bytes(extras[k].as_slice());
        let ghost iv = item@;
        let ghost prev = tags.deep_view();
        tags.push(item);
        proof {
            assert(iv == extras.deep_view()[k as int]);
            assert(tags.deep_view() =~~= prev.push(iv));
            assert(tags.deep_view() =~= headv + extras.deep_view().take(k + 1));
        }
        k = k + 1;
    }
    let ghost tv = tags.deep_view();
    let r = crate::helpers::dedup_preserve_order(tags);
    proof {
        // the language stays first; the structural markers stay members
        if nlv.len() > 0 {
            assert(tv[0] == nlv);
            crate::helpers::lemma_dedup_head(tv);
        }
        let p = spec_first_byte(fv, 47, 0);
        if 0 < p < fv.len() {
            assert(tv[di] == dirtag);
            assert(crate::record::spec_has(r.deep_view(), tv[di]));
        }
        let q = spec_rfind_byte(fname@, 46);
        if 0 <= q && q + 1 < fname@.len() {
            assert(tv[ei] == exttag);
            assert(crate::record::spec_has(r.deep_view(), tv[ei]));
        }
    }
    r
}

/// Whether the path's first component is one of the well-known noise
/// directories that the scanner skips outright.
pub open spec fn spec_is_noise_path(rel: Seq<u8>) -> bool {
    let p = spec_first_byte(rel, 47, 0);
    let top = rel.take(if p > rel.len() {
        rel.len() as int
    } else {
        p
    });
    ||| top == ascii_bytes("target"@)
    ||| top == ascii_bytes("node_modules"@)
    ||| top == ascii_bytes(".git"@)
    ||| top == ascii_bytes(".github"@)
    ||| top == ascii_bytes(".idea"@)
    ||| top == ascii_bytes(".vscode"@)
    ||| top == ascii_bytes(".venv"@)
    ||| top == ascii_bytes("__pycache__"@)
    ||| top == ascii_bytes("dist"@)
    ||| top == ascii_bytes("build"@)
}

/// Quick path-based noise check on the first path component.
pub fn is_noise_path(rel: &[u8]) -> (r: bool)
    ensures
        r == spec_is_noise_path(rel@),
{
    proof {
        reveal_strlit("target");
        reveal_strlit("node_modules");
        reveal_strlit(".git");
        reveal_strlit(".github");
        reveal_strlit(".idea");
        reveal_strlit(".vscode");
        reveal_strlit(".venv");
        reveal_strlit("__pycache__");
        reveal_strlit("dist");
        reveal_strlit("build");
    }
    let p = match crate::text::find_byte(rel, 47, 0) {
        Some(p) => {
            proof {
                lemma_first_byte_step(rel@, 47, 0, p as int);
            }
            p
        },
        None => {
            proof {
                lemma_first_byte_none(rel@, 47, 0);
            }
            rel.len()
        },
    };
    let top = sub_vec(rel, 0, p);
    proof {
        assert(top@ =~= rel@.take(p as int));
    }
    let t = top.as_slice();
    eq_bytes(t, lit("target").as_slice()) || eq_bytes(t, lit("node_modules").as_slice())
        || eq_bytes(t, lit(".git").as_slice()) || eq_bytes(t, lit(".github").as_slice())
        || eq_bytes(t, lit(".idea").as_slice()) || eq_bytes(t, lit(".vscode").as_slice())
        || eq_bytes(t, lit(".venv").as_slice()) || eq_bytes(t, lit("__pycache__").as_slice())
        || eq_bytes(t, lit("dist").as_slice()) || eq_bytes(t, lit("build").as_slice())
}

/// The language a shebang first line implies: recognised interpreters only,
/// nothing otherwise.
pub open spec fn spec_lang_from_shebang(first_line: Seq<u8>) -> Seq<u8> {
    let l = crate::text::spec_trim_start(first_line);
    if crate::text::spec_starts_with(l, ascii_bytes("#!"@)) {
        if crate::text::spec_contains(l, ascii_bytes("python"@)) {
            ascii_bytes("python"@)
        } else if crate::text::spec_contains(l, ascii_bytes("bash"@)) || crate::text::spec_contains(
            l,
            ascii_bytes("sh"@),
        ) {
            ascii_bytes("sh"@)
        } else if crate::text::spec_contains(l, ascii_bytes("node"@)) {
            ascii_bytes("js"@)
        } else {
            Seq::empty()
        }
    } else {
        Seq::empty()
    }
}

/// Sniff a shebang line for a known interpreter; empty when none applies.
pub fn lang_from_shebang(first_line: &[u8]) -> (r: Vec<u8>)
    ensures
        r@ == spec_lang_from_shebang(first_line@),
{
    proof {
        reveal_strlit("#!");
        reveal_strlit("python");
        reveal_strlit("bash");
        reveal_strlit("sh");
        reveal_strlit("node");
        reveal_strlit("js");
    }
    let lv = trim_start_bytes(first_line);
    let l = lv.as_slice();
    if crate::text::starts_with(l, lit("#!").as_slice()) {
        if crate::text::contains_sub(l, lit("python").as_slice()) {
            lit("python")
        } else if crate::text::contains_sub(l, lit("bash").as_slice()) || crate::text::contains_sub(
            l,
            lit("sh").as_slice(),
        ) {
            lit("sh")
        } else if crate::text::contains_sub(l, lit("node").as_slice()) {
            lit("js")
        } else {
            Vec::new()
        }
    } else {
        Vec::new()
    }
}

/// Copy with leading ASCII whitespace removed.
fn trim_start_bytes(s: &[u8]) -> (r: Vec<u8>)
    ensures
        r@ == crate::text::spec_trim_start(s@),
{
    let mut a: usize = 0;
    while a < s.len() && crate::text::is_ws(s[a])
        invariant
            a <= s@.len(),
            forall|j: int| 0 <= j < a ==> crate::text::spec_is_ws(s@[j]),
        decreases s@.len() - a,
    {
        a = a + 1;
    }
    proof {
        crate::text::lemma_trim_start_at(s@, a as int);
        if a < s@.len() {
            assert(s@.skip(a as int)[0] == s@[a as int]);
            assert(crate::text::spec_trim_start(s@.skip(a as int)) == s@.skip(a as int));
        } else {
            assert(s@.skip(a as int) =~= Seq::<u8>::empty());
            assert(crate::text::spec_trim_start(s@) =~= s@.skip(a as int));
        }
    }
    let r = sub_vec(s, a, s.len());
    proof {
        assert(r@ =~= s@.skip(a as int));
    }
    r
}

/// Last position of byte `b` in `s`.
fn last_byte_pos(s: &[u8], b: u8) -> (r: Option<usize>)
    ensures
        s@.len() <= usize::MAX,
        match r {
            Some(p) => p < s@.len() && s@[p as int] == b && forall|j: int|
                p < j < s@.len() ==> s@[j] != b,
            None => forall|j: int| 0 <= j < s@.len() ==> s@[j] != b,
        },
{
    let mut i: usize = s.len();
    proof {
        assert(i == s@.len());
    }
    while i > 0
        invariant
            i <= s@.len(),
            forall|j: int| i <= j < s@.len() ==> s@[j] != b,
        decreases i,
    {
        if s[i - 1] == b {
            return Some(i - 1);
        }
        i = i - 1;
    }
    None
}

/// Join a base and a relative path with `/`, dropping leading slashes of the
/// relative part.
pub fn safe_join(base: &[u8], rel: &[u8]) -> (r: Vec<u8>)
    ensures
        ({
            let stripped = spec_strip_slashes(rel@);
            r@ == if base@.len() == 0 {
                stripped
            } else {
                base@ + seq![47u8] + stripped
            }
        }),
{
    let mut a: usize = 0;
    while a < rel.len() && rel[a] == 47
        invariant
            a <= rel@.len(),
            forall|j: int| 0 <= j < a ==> rel@[j] == 47,
        decreases rel@.len() - a,
    {
        a = a + 1;
    }
    let stripped = sub_vec(rel, a, rel.len());
    proof {
        lemma_strip_slashes(rel@, a as int);
    }
    if base.len() == 0 {
        stripped
    } else {
        let mut out = copy_bytes(base);
        out.push(47);
        push_all(&mut out, stripped.as_slice());
        out
    }
}

pub open spec fn spec_strip_slashes(s: Seq<u8>) -> Seq<u8>
    decreases s.len(),
{
    if s.len() > 0 && s[0] == 47 {
        spec_strip_slashes(s.skip(1))
    } else {
        s
    }
}

proof fn lemma_strip_slashes(s: Seq<u8>, a: int)
    requires
        0 <= a <= s.len(),
        forall|j: int| 0 <= j < a ==> s[j] == 47,
        a == s.len() || s[a] != 47,
    ensures
        spec_strip_slashes(s) == s.skip(a),
    decreases a,
{
    if a > 0 {
        assert(s.skip(1).skip(a - 1) =~= s.skip(a));
        lemma_strip_slashes(s.skip(1), a - 1);
    } else {
        assert(s.skip(0) =~= s);
    }
}

/// Tokens of a text at three words per four tokens, rounded up: the whitespace
/// separated word count scaled by four thirds. The bound on the input keeps
/// the scaled count within the machine word.
pub fn estimate_tokens(s: &[u8]) -> (r: usize)
    requires
        s@.len() <= usize::MAX / 4,
    ensures
        r == (4 * spec_word_count(s@, 0, false) + 2) / 3,
{
    let mut words: usize = 0;
    let mut in_word = false;
    let mut i: usize = 0;
    while i < s.len()
        invariant
            i <= s@.len(),
            words <= i,
            spec_word_count(s@, 0, false) == words + spec_word_count(s@, i as int, in_word),
        decreases s@.len() - i,
    {
        let ws = crate::text::is_ws(s[i]);
        if !ws && !in_word {
            words = words + 1;
        }
        in_word = !ws;
        i = i + 1;
    }
    proof {
        assert(spec_word_count(s@, s@.len() as int, in_word) == 0);
    }
    (4 * words + 2) / 3
}

/// Number of whitespace-separated words from position `i` on.
pub open spec fn spec_word_count(s: Seq<u8>, i: int, in_word: bool) -> int
    decreases s.len() - i,
{
    if i < 0 || i >= s.len() {
        0
    } else if !crate::text::spec_is_ws(s[i]) && !in_word {
        1 + spec_word_count(s, i + 1, true)
    } else {
        spec_word_count(s, i + 1, !crate::text::spec_is_ws(s[i]))
    }
}

} // verus!
