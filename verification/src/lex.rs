//! Comment- and string-aware lexical scanning over source bytes.
//!
//! The scanner is a tagged state machine: outside-code, line comment, nested
//! block comment, normal string with escapes, raw string with a hash weight,
//! and character literal. Brace depth counts only in the outside-code state.
//! The executable scanners are proved equal to the spec state machine, which
//! in particular pins down where a balanced block ends.
use vstd::prelude::*;

use crate::text::{CR, HT, NL, SP};

verus! {

pub const SLASH: u8 = 47;

pub const STAR: u8 = 42;

pub const BACKSLASH: u8 = 92;

pub const DQUOTE: u8 = 34;

pub const SQUOTE: u8 = 39;

pub const HASH: u8 = 35;

pub const LBRACE: u8 = 123;

pub const RBRACE: u8 = 125;

pub const SEMI: u8 = 59;

pub const LOWER_R: u8 = 114;

pub const UNDERSCORE: u8 = 95;

#[derive(Copy, Clone, Debug, PartialEq, Eq, Structural)]
pub enum LexMode {
    Code,
    LineComment,
    BlockComment,
    Str,
    RawStr,
    CharLit,
}

/// Scanner state: the lexical mode, the block-comment nesting depth, the raw
/// string hash weight, and the brace depth counted in code mode.
#[derive(Copy, Clone, Debug, PartialEq, Eq, Structural)]
pub struct LexSt {
    pub mode: LexMode,
    pub block_depth: usize,
    pub raw_hashes: usize,
    pub depth: usize,
}

pub open spec fn spec_init_lex() -> LexSt {
    LexSt { mode: LexMode::Code, block_depth: 0, raw_hashes: 0, depth: 0 }
}

pub fn init_lex() -> (r: LexSt)
    ensures
        r == spec_init_lex(),
{
    LexSt { mode: LexMode::Code, block_depth: 0, raw_hashes: 0, depth: 0 }
}

/// Length of the run of `#` bytes starting at `i`.
pub open spec fn spec_hash_run(s: Seq<u8>, i: int) -> int
    decreases s.len() - i,
{
    if i < 0 || i >= s.len() || s[i] != HASH {
        0
    } else {
        1 + spec_hash_run(s, i + 1)
    }
}

pub proof fn lemma_hash_run_bounds(s: Seq<u8>, i: int)
    requires
        0 <= i <= s.len(),
    ensures
        0 <= spec_hash_run(s, i) <= s.len() - i,
    decreases s.len() - i,
{
    if i < s.len() && s[i] == HASH {
        lemma_hash_run_bounds(s, i + 1);
    }
}

/// Count the `#` run starting at `i`.
pub fn hash_run(s: &[u8], i: usize) -> (r: usize)
    requires
        i <= s@.len(),
    ensures
        r == spec_hash_run(s@, i as int),
        i + r <= s@.len(),
{
    proof {
        lemma_hash_run_bounds(s@, i as int);
    }
    let mut j = i;
    while j < s.len() && s[j] == HASH
        invariant
            i <= j <= s@.len(),
            spec_hash_run(s@, i as int) == (j - i) + spec_hash_run(s@, j as int),
        decreases s@.len() - j,
    {
        proof {
            lemma_hash_run_bounds(s@, j + 1);
        }
        j = j + 1;
    }
    j - i
}

/// One transition of the scanner at position `i`; yields the next state and
/// the next cursor, which always moves strictly forward.
pub open spec fn spec_step(s: Seq<u8>, i: int, st: LexSt) -> (LexSt, int) {
    let c = s[i];
    match st.mode {
        LexMode::LineComment => {
            if c == NL {
                (LexSt { mode: LexMode::Code, ..st }, i + 1)
            } else {
                (st, i + 1)
            }
        },
        LexMode::BlockComment => {
            if c == SLASH && i + 1 < s.len() && s[i + 1] == STAR {
                (LexSt { block_depth: (st.block_depth + 1) as usize, ..st }, i + 2)
            } else if c == STAR && i + 1 < s.len() && s[i + 1] == SLASH {
                if st.block_depth <= 1 {
                    (LexSt { mode: LexMode::Code, block_depth: 0, ..st }, i + 2)
                } else {
                    (LexSt { block_depth: (st.block_depth - 1) as usize, ..st }, i + 2)
                }
            } else {
                (st, i + 1)
            }
        },
        LexMode::Str => {
            if c == BACKSLASH {
                (st, i + 2)
            } else if c == DQUOTE {
                (LexSt { mode: LexMode::Code, ..st }, i + 1)
            } else {
                (st, i + 1)
            }
        },
        LexMode::RawStr => {
            if c == DQUOTE && spec_hash_run(s, i + 1) == st.raw_hashes {
                (LexSt { mode: LexMode::Code, raw_hashes: 0, ..st }, i + 1 + st.raw_hashes)
            } else {
                (st, i + 1)
            }
        },
        LexMode::CharLit => {
            if c == BACKSLASH {
                (st, i + 2)
            } else if c == SQUOTE {
                (LexSt { mode: LexMode::Code, ..st }, i + 1)
            } else {
                (st, i + 1)
            }
        },
        LexMode::Code => {
            if c == SLASH && i + 1 < s.len() && s[i + 1] == SLASH {
                (LexSt { mode: LexMode::LineComment, ..st }, i + 2)
            } else if c == SLASH && i + 1 < s.len() && s[i + 1] == STAR {
                (LexSt { mode: LexMode::BlockComment, block_depth: 1, ..st }, i + 2)
            } else if c == LOWER_R && spec_raw_opens(s, i) {
                (
                    LexSt { mode: LexMode::RawStr, raw_hashes: spec_hash_run(s, i + 1) as usize, ..st },
                    i + 2 + spec_hash_run(s, i + 1),
                )
            } else if c == DQUOTE {
                (LexSt { mode: LexMode::Str, raw_hashes: 0, ..st }, i + 1)
            } else if c == SQUOTE {
                (LexSt { mode: LexMode::CharLit, ..st }, i + 1)
            } else if c == LBRACE {
                (LexSt { depth: (st.depth + 1) as usize, ..st }, i + 1)
            } else if c == RBRACE {
                if st.depth > 0 {
                    (LexSt { depth: (st.depth - 1) as usize, ..st }, i + 1)
                } else {
                    (st, i + 1)
                }
            } else {
                (st, i + 1)
            }
        },
    }
}

/// Whether `r` followed by hashes and a double quote opens a raw string at `i`.
pub open spec fn spec_raw_opens(s: Seq<u8>, i: int) -> bool {
    let h = spec_hash_run(s, i + 1);
    i + 1 + h < s.len() && s[i + 1 + h] == DQUOTE
}

pub proof fn lemma_step_advances(s: Seq<u8>, i: int, st: LexSt)
    requires
        0 <= i < s.len(),
    ensures
        spec_step(s, i, st).1 > i,
{
    if st.mode == LexMode::Code && s[i] == LOWER_R && spec_raw_opens(s, i) {
        lemma_hash_run_bounds(s, i + 1);
    } else if st.mode == LexMode::RawStr && s[i] == DQUOTE && spec_hash_run(s, i + 1)
        == st.raw_hashes {
        lemma_hash_run_bounds(s, i + 1);
    }
}

/// Clamp a cursor to the end of the input.
pub open spec fn spec_clamp(s: Seq<u8>, j: int) -> int {
    if j > s.len() {
        s.len() as int
    } else {
        j
    }
}

/// One executable transition, mirroring `spec_step` with the cursor clamped.
pub fn lex_step(s: &[u8], i: usize, st: LexSt) -> (r: (LexSt, usize))
    requires
        i < s@.len(),
        st.depth < usize::MAX,
        st.block_depth < usize::MAX,
    ensures
        r.0 == spec_step(s@, i as int, st).0,
        r.1 == spec_clamp(s@, spec_step(s@, i as int, st).1),
        i < r.1 <= s@.len(),
        r.0.depth <= st.depth + 1,
        r.0.block_depth <= st.block_depth + 1,
{
    proof {
        lemma_step_advances(s@, i as int, st);
    }
    let len = s.len();
    let c = s[i];
    let two = |base: usize|
        -> (o: usize)
        requires
            base < len,
            len == s@.len(),
        ensures
            o == spec_clamp(s@, base + 2),
            base < o <= s@.len(),
        { if base + 1 < len { base + 2 } else { len } };
    match st.mode {
        LexMode::LineComment => {
            if c == NL {
                (LexSt { mode: LexMode::Code, ..st }, i + 1)
            } else {
                (st, i + 1)
            }
        },
        LexMode::BlockComment => {
            if c == SLASH && i + 1 < len && s[i + 1] == STAR {
                (LexSt { block_depth: st.block_depth + 1, ..st }, i + 2)
            } else if c == STAR && i + 1 < len && s[i + 1] == SLASH {
                if st.block_depth <= 1 {
                    (LexSt { mode: LexMode::Code, block_depth: 0, ..st }, i + 2)
                } else {
                    (LexSt { block_depth: st.block_depth - 1, ..st }, i + 2)
                }
            } else {
                (st, i + 1)
            }
        },
        LexMode::Str => {
            if c == BACKSLASH {
                (st, two(i))
            } else if c == DQUOTE {
                (LexSt { mode: LexMode::Code, ..st }, i + 1)
            } else {
                (st, i + 1)
            }
        },
        LexMode::RawStr => {
            if c == DQUOTE {
                let k = hash_run(s, i + 1);
                if k == st.raw_hashes {
                    (LexSt { mode: LexMode::Code, raw_hashes: 0, ..st }, i + 1 + k)
                } else {
                    (st, i + 1)
                }
            } else {
                (st, i + 1)
            }
        },
        LexMode::CharLit => {
            if c == BACKSLASH {
                (st, two(i))
            } else if c == SQUOTE {
                (LexSt { mode: LexMode::Code, ..st }, i + 1)
            } else {
                (st, i + 1)
            }
        },
        LexMode::Code => {
            if c == SLASH && i + 1 < len && s[i + 1] == SLASH {
                (LexSt { mode: LexMode::LineComment, ..st }, i + 2)
            } else if c == SLASH && i + 1 < len && s[i + 1] == STAR {
                (LexSt { mode: LexMode::BlockComment, block_depth: 1, ..st }, i + 2)
            } else if c == LOWER_R {
                let h = hash_run(s, i + 1);
                if i + 1 + h < len && s[i + 1 + h] == DQUOTE {
                    (LexSt { mode: LexMode::RawStr, raw_hashes: h, ..st }, i + 2 + h)
                } else {
                    (st, i + 1)
                }
            } else if c == DQUOTE {
                (LexSt { mode: LexMode::Str, raw_hashes: 0, ..st }, i + 1)
            } else if c == SQUOTE {
                (LexSt { mode: LexMode::CharLit, ..st }, i + 1)
            } else if c == LBRACE {
                (LexSt { depth: st.depth + 1, ..st }, i + 1)
            } else if c == RBRACE {
                if st.depth > 0 {
                    (LexSt { depth: st.depth - 1, ..st }, i + 1)
                } else {
                    (st, i + 1)
                }
            } else {
                (st, i + 1)
            }
        },
    }
}

/// The position just past the `}` that closes the block, scanning from `i` in
/// state `st`; `None` when the input ends first.
pub open spec fn spec_scan_close(s: Seq<u8>, i: int, st: LexSt) -> Option<int>
    decreases s.len() - i,
{
    if i < 0 || i >= s.len() {
        None
    } else if st.mode == LexMode::Code && s[i] == RBRACE && st.depth == 1 {
        Some(i + 1)
    } else {
        let stp = spec_step(s, i, st);
        if stp.1 <= i {
            None
        } else {
            spec_scan_close(s, spec_clamp(s, stp.1), stp.0)
        }
    }
}

/// Clamping the cursor does not change the scan result.
proof fn lemma_scan_close_clamp(s: Seq<u8>, j: int, st: LexSt)
    ensures
        spec_scan_close(s, spec_clamp(s, j), st) == spec_scan_close(s, j, st),
{
}

/// Consume a balanced `{ ... }` block whose opening brace is at `start_brace`;
/// returns the offset just past the matching closing brace.
///
/// Braces inside comments, strings, raw strings, and character literals do not
/// count; block comments nest; a raw string closes only at its exact hash
/// weight.
pub fn consume_balanced_block(bytes: &[u8], start_brace: usize) -> (r: Result<usize, ScanError>)
    requires
        start_brace < bytes@.len(),
    ensures
        match r {
            Ok(end) => {
                &&& spec_scan_close(bytes@, start_brace as int, spec_init_lex()) == Some(end as int)
                &&& start_brace < end <= bytes@.len()
            },
            Err(e) => {
                &&& spec_scan_close(bytes@, start_brace as int, spec_init_lex()) is None
                &&& e == ScanError::Unbalanced
            },
        },
{
    let mut i: usize = start_brace;
    let mut st = init_lex();
    while i < bytes.len()
        invariant
            start_brace <= i,
            spec_scan_close(bytes@, i as int, st) == spec_scan_close(
                bytes@,
                start_brace as int,
                spec_init_lex(),
            ),
            st.depth <= i - start_brace,
            st.block_depth <= i - start_brace,
        decreases bytes@.len() - i,
    {
        let is_close = match st.mode {
            LexMode::Code => bytes[i] == RBRACE && st.depth == 1,
            _ => false,
        };
        if is_close {
            return Ok(i + 1);
        }
        let ghost old_i = i as int;
        let ghost old_st = st;
        let (st2, ni) = lex_step(bytes, i, st);
        proof {
            lemma_step_advances(bytes@, old_i, old_st);
            lemma_scan_close_clamp(bytes@, spec_step(bytes@, old_i, old_st).1, st2);
            assert(spec_scan_close(bytes@, old_i, old_st) == spec_scan_close(
                bytes@,
                ni as int,
                st2,
            ));
        }
        st = st2;
        i = ni;
    }
    Err(ScanError::Unbalanced)
}

/// Why a lexical scan gave no result.
#[derive(Copy, Clone, Debug, PartialEq, Eq, Structural)]
pub enum ScanError {
    /// The input ended before the block closed.
    Unbalanced,
    /// The declaration ends in `;` and has no body.
    SignatureOnly,
    /// No body brace was found after the declaration head.
    NoBody,
    /// The keyword plus identifier was not found in code context.
    NotFound,
}

/// End of a nested block comment opened before `j` at nesting `depth`;
/// the input length when the comment never closes.
pub open spec fn spec_block_end(s: Seq<u8>, j: int, depth: int) -> int
    decreases s.len() - j,
{
    if j < 0 || j >= s.len() {
        s.len() as int
    } else if s[j] == SLASH && j + 1 < s.len() && s[j + 1] == STAR {
        spec_block_end(s, j + 2, depth + 1)
    } else if s[j] == STAR && j + 1 < s.len() && s[j + 1] == SLASH {
        if depth <= 1 {
            j + 2
        } else {
            spec_block_end(s, j + 2, depth - 1)
        }
    } else {
        spec_block_end(s, j + 1, depth)
    }
}

proof fn lemma_block_end_bounds(s: Seq<u8>, j: int, depth: int)
    requires
        0 <= j <= s.len(),
    ensures
        j <= spec_block_end(s, j, depth) <= s.len(),
    decreases s.len() - j,
{
    if j < s.len() {
        if s[j] == SLASH && j + 1 < s.len() && s[j + 1] == STAR {
            lemma_block_end_bounds(s, j + 2, depth + 1);
        } else if s[j] == STAR && j + 1 < s.len() && s[j + 1] == SLASH {
            if depth > 1 {
                lemma_block_end_bounds(s, j + 2, depth - 1);
            }
        } else {
            lemma_block_end_bounds(s, j + 1, depth);
        }
    }
}

/// Position after leading whitespace, line comments, and block comments.
pub open spec fn spec_skip_trivia(s: Seq<u8>, i: int) -> int
    decreases s.len() - i,
{
    if i < 0 || i >= s.len() {
        s.len() as int
    } else if spec_is_trivia_ws(s[i]) {
        spec_skip_trivia(s, i + 1)
    } else if s[i] == SLASH && i + 1 < s.len() && s[i + 1] == SLASH {
        let e = crate::text::spec_next_nl(s, i);
        if e <= i || e > s.len() {
            s.len() as int
        } else {
            spec_skip_trivia(s, e)
        }
    } else if s[i] == SLASH && i + 1 < s.len() && s[i + 1] == STAR {
        let e = spec_block_end(s, i + 2, 1);
        if e <= i || e > s.len() {
            s.len() as int
        } else {
            spec_skip_trivia(s, e)
        }
    } else {
        i
    }
}

pub open spec fn spec_is_trivia_ws(b: u8) -> bool {
    b == SP || b == HT || b == NL || b == CR
}

pub proof fn lemma_skip_trivia_bounds(s: Seq<u8>, i: int)
    requires
        0 <= i <= s.len(),
    ensures
        i <= spec_skip_trivia(s, i) <= s.len(),
    decreases s.len() - i,
{
    if i < s.len() {
        if spec_is_trivia_ws(s[i]) {
            lemma_skip_trivia_bounds(s, i + 1);
        } else if s[i] == SLASH && i + 1 < s.len() && s[i + 1] == SLASH {
            crate::text::lemma_next_nl_bounds(s, i);
            let e = crate::text::spec_next_nl(s, i);
            if e > i {
                lemma_skip_trivia_bounds(s, e);
            }
        } else if s[i] == SLASH && i + 1 < s.len() && s[i + 1] == STAR {
            lemma_block_end_bounds(s, i + 2, 1);
            let e = spec_block_end(s, i + 2, 1);
            if e > i {
                lemma_skip_trivia_bounds(s, e);
            }
        }
    }
}

/// Skip ASCII whitespace and both comment forms, starting at `from`.
pub fn skip_ws_and_comments(bytes: &[u8], from: usize) -> (r: usize)
    requires
        from <= bytes@.len(),
    ensures
        r == spec_skip_trivia(bytes@, from as int),
        from <= r <= bytes@.len(),
{
    proof {
        lemma_skip_trivia_bounds(bytes@, from as int);
    }
    let mut j = from;
    while j < bytes.len()
        invariant
            from <= j <= bytes@.len(),
            spec_skip_trivia(bytes@, j as int) == spec_skip_trivia(bytes@, from as int),
        decreases bytes@.len() - j,
    {
        let c = bytes[j];
        if c == SP || c == HT || c == NL || c == CR {
            j = j + 1;
        } else if c == SLASH && j + 1 < bytes.len() && bytes[j + 1] == SLASH {
            let e = match crate::text::find_byte(bytes, NL, j) {
                Some(p) => p,
                None => bytes.len(),
            };
            proof {
                crate::text::lemma_next_nl_bounds(bytes@, j as int);
                assert(crate::text::spec_next_nl(bytes@, j as int) == e as int) by {
                    let nj = crate::text::spec_next_nl(bytes@, j as int);
                    if nj < e {
                        assert(bytes@[nj] == NL);
                    } else if nj > e {
                        assert(e < bytes@.len() && bytes@[e as int] == NL);
                    }
                }
                assert(e > j);
                lemma_skip_trivia_bounds(bytes@, e as int);
            }
            j = e;
        } else if c == SLASH && j + 1 < bytes.len() && bytes[j + 1] == STAR {
            let e = block_comment_end(bytes, j + 2, 1);
            proof {
                lemma_block_end_bounds(bytes@, j + 2, 1);
                lemma_skip_trivia_bounds(bytes@, e as int);
            }
            j = e;
        } else {
            proof {
                assert(spec_skip_trivia(bytes@, j as int) == j as int);
            }
            return j;
        }
    }
    j
}

/// Scan to the end of a nested block comment.
fn block_comment_end(bytes: &[u8], start: usize, depth0: usize) -> (r: usize)
    requires
        start <= bytes@.len(),
        depth0 >= 1,
        depth0 <= start,
    ensures
        r == spec_block_end(bytes@, start as int, depth0 as int),
        start <= r <= bytes@.len(),
{
    proof {
        lemma_block_end_bounds(bytes@, start as int, depth0 as int);
    }
    let mut j = start;
    let mut depth = depth0;
    while j < bytes.len() && depth > 0
        invariant
            start <= j <= bytes@.len(),
            depth <= j,
            depth > 0 ==> spec_block_end(bytes@, j as int, depth as int) == spec_block_end(
                bytes@,
                start as int,
                depth0 as int,
            ),
            depth == 0 ==> j == spec_block_end(bytes@, start as int, depth0 as int),
        decreases bytes@.len() - j,
    {
        if bytes[j] == SLASH && j + 1 < bytes.len() && bytes[j + 1] == STAR {
            depth = depth + 1;
            j = j + 2;
        } else if bytes[j] == STAR && j + 1 < bytes.len() && bytes[j + 1] == SLASH {
            depth = depth - 1;
            j = j + 2;
        } else {
            j = j + 1;
        }
    }
    if depth > 0 {
        proof {
            assert(spec_block_end(bytes@, j as int, depth as int) == bytes@.len());
        }
        bytes.len()
    } else {
        j
    }
}

pub open spec fn spec_is_ident_start(b: u8) -> bool {
    (crate::text::UPPER_A <= b && b <= crate::text::UPPER_Z) || (crate::text::LOWER_A <= b && b
        <= crate::text::LOWER_Z) || b == UNDERSCORE
}

pub open spec fn spec_is_ident_continue(b: u8) -> bool {
    spec_is_ident_start(b) || (crate::text::DIGIT_0 <= b && b <= crate::text::DIGIT_9)
}

pub fn is_ident_start(b: u8) -> (r: bool)
    ensures
        r == spec_is_ident_start(b),
{
    (crate::text::UPPER_A <= b && b <= crate::text::UPPER_Z) || (crate::text::LOWER_A <= b && b
        <= crate::text::LOWER_Z) || b == UNDERSCORE
}

pub fn is_ident_continue(b: u8) -> (r: bool)
    ensures
        r == spec_is_ident_continue(b),
{
    is_ident_start(b) || (crate::text::DIGIT_0 <= b && b <= crate::text::DIGIT_9)
}

/// End of the identifier starting at `j`; `j` itself when none starts there.
pub open spec fn spec_ident_end(s: Seq<u8>, j: int) -> int {
    if 0 <= j < s.len() && spec_is_ident_start(s[j]) {
        spec_ident_cont_end(s, j + 1)
    } else {
        j
    }
}

pub open spec fn spec_ident_cont_end(s: Seq<u8>, k: int) -> int
    decreases s.len() - k,
{
    if 0 <= k < s.len() && spec_is_ident_continue(s[k]) {
        spec_ident_cont_end(s, k + 1)
    } else {
        k
    }
}

proof fn lemma_ident_cont_end_bounds(s: Seq<u8>, k: int)
    requires
        0 <= k <= s.len(),
    ensures
        k <= spec_ident_cont_end(s, k) <= s.len(),
    decreases s.len() - k,
{
    if k < s.len() && spec_is_ident_continue(s[k]) {
        lemma_ident_cont_end_bounds(s, k + 1);
    }
}

/// Parse the identifier starting at `j`: its bytes and its end position.
pub fn parse_ident(bytes: &[u8], j: usize) -> (r: (Option<Vec<u8>>, usize))
    requires
        j <= bytes@.len(),
    ensures
        r.1 == spec_ident_end(bytes@, j as int),
        j <= r.1 <= bytes@.len(),
        match r.0 {
            Some(name) => r.1 > j && name@ == bytes@.subrange(j as int, r.1 as int),
            None => r.1 == j,
        },
{
    if j >= bytes.len() {
        return (None, j);
    }
    if !is_ident_start(bytes[j]) {
        return (None, j);
    }
    proof {
        assert(j < bytes@.len());
        lemma_ident_cont_end_bounds(bytes@, j + 1);
    }
    let mut k = j + 1;
    while k < bytes.len() && is_ident_continue(bytes[k])
        invariant
            j + 1 <= k <= bytes@.len(),
            spec_ident_cont_end(bytes@, k as int) == spec_ident_cont_end(bytes@, j + 1),
        decreases bytes@.len() - k,
    {
        proof {
            lemma_ident_cont_end_bounds(bytes@, k + 1);
        }
        k = k + 1;
    }
    let name = crate::text::sub_vec(bytes, j, k);
    (Some(name), k)
}

/// Whether `kw` occurs at `i` bounded by non-identifier bytes on both sides.
pub open spec fn spec_token_at(s: Seq<u8>, i: int, kw: Seq<u8>) -> bool {
    &&& crate::text::spec_match_at(s, kw, i)
    &&& (i == 0 || !spec_is_ident_continue(s[i - 1]))
    &&& (i + kw.len() == s.len() || !spec_is_ident_continue(s[i + kw.len()]))
}

/// Keyword occurrence test at a word boundary.
pub fn is_token_at(bytes: &[u8], i: usize, kw: &[u8]) -> (r: bool)
    ensures
        r == spec_token_at(bytes@, i as int, kw@),
{
    if !crate::text::match_at(bytes, kw, i) {
        return false;
    }
    let prev_ok = i == 0 || !is_ident_continue(bytes[i - 1]);
    let next_ok = i + kw.len() == bytes.len() || !is_ident_continue(bytes[i + kw.len()]);
    prev_ok && next_ok
}

/// End of a normal string body scanned from `k` (just past the opening quote).
pub open spec fn spec_str_skip(s: Seq<u8>, k: int) -> int
    decreases s.len() - k,
{
    if k < 0 || k >= s.len() {
        s.len() as int
    } else if s[k] == BACKSLASH {
        spec_str_skip(s, spec_clamp(s, k + 2))
    } else if s[k] == DQUOTE {
        k + 1
    } else {
        spec_str_skip(s, k + 1)
    }
}

proof fn lemma_str_skip_bounds(s: Seq<u8>, k: int)
    requires
        0 <= k <= s.len(),
    ensures
        k <= spec_str_skip(s, k) <= s.len(),
    decreases s.len() - k,
{
    if k < s.len() {
        if s[k] == BACKSLASH {
            lemma_str_skip_bounds(s, spec_clamp(s, k + 2));
        } else if s[k] != DQUOTE {
            lemma_str_skip_bounds(s, k + 1);
        }
    }
}

fn str_skip(bytes: &[u8], from: usize) -> (r: usize)
    requires
        from <= bytes@.len(),
    ensures
        r == spec_str_skip(bytes@, from as int),
        from <= r <= bytes@.len(),
{
    proof {
        lemma_str_skip_bounds(bytes@, from as int);
    }
    let mut k = from;
    while k < bytes.len()
        invariant
            from <= k <= bytes@.len(),
            spec_str_skip(bytes@, k as int) == spec_str_skip(bytes@, from as int),
        decreases bytes@.len() - k,
    {
        if bytes[k] == BACKSLASH {
            let n = if k + 1 < bytes.len() {
                k + 2
            } else {
                bytes.len()
            };
            proof {
                lemma_str_skip_bounds(bytes@, n as int);
            }
            k = n;
        } else if bytes[k] == DQUOTE {
            return k + 1;
        } else {
            k = k + 1;
        }
    }
    k
}

/// End of a raw string body with hash weight `h`, scanned from `t`.
pub open spec fn spec_rawstr_skip(s: Seq<u8>, t: int, h: int) -> int
    decreases s.len() - t,
{
    if t < 0 || t >= s.len() {
        s.len() as int
    } else if s[t] == DQUOTE && spec_hash_run(s, t + 1) == h {
        t + 1 + h
    } else {
        spec_rawstr_skip(s, t + 1, h)
    }
}

proof fn lemma_rawstr_skip_bounds(s: Seq<u8>, t: int, h: int)
    requires
        0 <= t <= s.len(),
        0 <= h,
    ensures
        t <= spec_rawstr_skip(s, t, h) <= s.len(),
    decreases s.len() - t,
{
    if t < s.len() {
        if s[t] == DQUOTE && spec_hash_run(s, t + 1) == h {
            lemma_hash_run_bounds(s, t + 1);
        } else {
            lemma_rawstr_skip_bounds(s, t + 1, h);
        }
    }
}

fn rawstr_skip(bytes: &[u8], from: usize, h: usize) -> (r: usize)
    requires
        from <= bytes@.len(),
    ensures
        r == spec_rawstr_skip(bytes@, from as int, h as int),
        from <= r <= bytes@.len(),
{
    proof {
        lemma_rawstr_skip_bounds(bytes@, from as int, h as int);
    }
    let mut t = from;
    while t < bytes.len()
        invariant
            from <= t <= bytes@.len(),
            spec_rawstr_skip(bytes@, t as int, h as int) == spec_rawstr_skip(
                bytes@,
                from as int,
                h as int,
            ),
        decreases bytes@.len() - t,
    {
        if bytes[t] == DQUOTE {
            let k = hash_run(bytes, t + 1);
            if k == h {
                return t + 1 + k;
            }
        }
        t = t + 1;
    }
    t
}

/// End of a character literal whose opening quote is at `j`.
pub open spec fn spec_char_skip(s: Seq<u8>, j: int) -> int {
    let a = j + 1;
    let b = if a < s.len() && s[a] == BACKSLASH {
        a + 2
    } else {
        a
    };
    let c = if b < s.len() {
        b + 1
    } else {
        b
    };
    spec_clamp(s, c)
}

fn char_skip(bytes: &[u8], j: usize) -> (r: usize)
    requires
        j < bytes@.len(),
    ensures
        r == spec_char_skip(bytes@, j as int),
        j < r <= bytes@.len(),
{
    let len = bytes.len();
    proof {
        assert(j < len);
    }
    let mut k = j + 1;
    if k < bytes.len() && bytes[k] == BACKSLASH {
        k = if k + 1 < bytes.len() {
            k + 2
        } else {
            bytes.len()
        };
    }
    if k < bytes.len() {
        k = k + 1;
    }
    if k > bytes.len() {
        bytes.len()
    } else {
        k
    }
}

/// Where the body of a declaration head starting at `i` opens: the offset of
/// its `{`, or `-1` for a signature ending in `;`, or `-2` when the input ends
/// first. Strings, raw strings, and character literals met on the way are
/// skipped whole.
pub open spec fn spec_body_open(s: Seq<u8>, i: int) -> int
    decreases s.len() - i,
{
    if i < 0 {
        -2
    } else {
        let j = spec_skip_trivia(s, i);
        if j >= s.len() || j < i {
            -2
        } else if s[j] == LBRACE {
            j
        } else if s[j] == SEMI {
            -1
        } else if s[j] == DQUOTE {
            let e = spec_str_skip(s, j + 1);
            if e <= i || e > s.len() {
                -2
            } else {
                spec_body_open(s, e)
            }
        } else if s[j] == LOWER_R && spec_raw_opens(s, j) {
            let h = spec_hash_run(s, j + 1);
            let e = spec_rawstr_skip(s, j + 2 + h, h);
            if e <= i || e > s.len() {
                -2
            } else {
                spec_body_open(s, e)
            }
        } else if s[j] == SQUOTE {
            let e = spec_char_skip(s, j);
            if e <= i || e > s.len() {
                -2
            } else {
                spec_body_open(s, e)
            }
        } else {
            spec_body_open(s, j + 1)
        }
    }
}

/// Find where a declaration body opens, skipping signature trivia.
pub fn body_open(bytes: &[u8], from: usize) -> (r: Option<Result<usize, bool>>)
    requires
        from <= bytes@.len(),
    ensures
        match r {
            Some(Ok(p)) => spec_body_open(bytes@, from as int) == p as int && from <= p
                < bytes@.len(),
            Some(Err(sig)) => sig && spec_body_open(bytes@, from as int) == -1,
            None => spec_body_open(bytes@, from as int) == -2,
        },
{
    let mut i = from;
    while i < bytes.len()
        invariant
            from <= i <= bytes@.len(),
            spec_body_open(bytes@, i as int) == spec_body_open(bytes@, from as int),
        decreases bytes@.len() - i,
    {
        let j = skip_ws_and_comments(bytes, i);
        proof {
            lemma_skip_trivia_bounds(bytes@, i as int);
        }
        if j >= bytes.len() {
            proof {
                assert(spec_body_open(bytes@, i as int) == -2);
            }
            return None;
        }
        let c = bytes[j];
        if c == LBRACE {
            proof {
                assert(spec_body_open(bytes@, i as int) == j as int);
            }
            return Some(Ok(j));
        } else if c == SEMI {
            proof {
                assert(spec_body_open(bytes@, i as int) == -1);
            }
            return Some(Err(true));
        } else if c == DQUOTE {
            let e = str_skip(bytes, j + 1);
            proof {
                assert(e > i);
            }
            i = e;
        } else if c == LOWER_R {
            let h = hash_run(bytes, j + 1);
            if j + 1 + h < bytes.len() && bytes[j + 1 + h] == DQUOTE {
                let e = rawstr_skip(bytes, j + 2 + h, h);
                proof {
                    assert(spec_raw_opens(bytes@, j as int));
                    assert(e > i);
                }
                i = e;
            } else {
                proof {
                    assert(!spec_raw_opens(bytes@, j as int));
                }
                i = j + 1;
            }
        } else if c == SQUOTE {
            let e = char_skip(bytes, j);
            i = e;
        } else {
            i = j + 1;
        }
    }
    proof {
        assert(spec_body_open(bytes@, i as int) == -2);
    }
    None
}

/// The first position, scanning from `i` in state `st`, where `kw` occurs as
/// a token in code context followed (after trivia) by exactly the identifier
/// `ident`; `-1` when there is none.
pub open spec fn spec_find_decl(s: Seq<u8>, i: int, st: LexSt, kw: Seq<u8>, ident: Seq<u8>) -> int
    decreases s.len() - i,
{
    if i < 0 || i >= s.len() {
        -1
    } else if st.mode == LexMode::Code && !spec_opener(s, i) && spec_token_at(s, i, kw)
        && spec_ident_matches(s, i + kw.len(), ident) {
        i
    } else {
        let stp = spec_step(s, i, st);
        if stp.1 <= i {
            -1
        } else {
            spec_find_decl(s, spec_clamp(s, stp.1), stp.0, kw, ident)
        }
    }
}

/// Whether position `i` starts a comment, string, raw string, or char literal.
pub open spec fn spec_opener(s: Seq<u8>, i: int) -> bool {
    ||| (s[i] == SLASH && i + 1 < s.len() && (s[i + 1] == SLASH || s[i + 1] == STAR))
    ||| s[i] == DQUOTE
    ||| s[i] == SQUOTE
    ||| (s[i] == LOWER_R && spec_raw_opens(s, i))
}

/// Whether the identifier after position `p` (past trivia) is exactly `ident`.
pub open spec fn spec_ident_matches(s: Seq<u8>, p: int, ident: Seq<u8>) -> bool {
    let j = spec_skip_trivia(s, p);
    let e = spec_ident_end(s, j);
    e > j && s.subrange(j, e) == ident
}

/// Locate `kw` + `ident` in code context and consume the balanced body.
/// This is the safety net used when span information is unavailable; it is
/// also the reference semantics the span path funnels into.
pub fn find_balanced_block(src: &[u8], kw: &[u8], ident: &[u8]) -> (r: Result<
    (usize, usize),
    ScanError,
>)
    requires
        kw@.len() > 0,
    ensures
        match r {
            Ok((start, end)) => {
                &&& start as int == spec_find_decl(src@, 0, spec_init_lex(), kw@, ident@)
                &&& spec_body_open(src@, spec_ident_end(src@, spec_skip_trivia(src@, start + kw@.len())))
                    >= 0
                &&& spec_scan_close(
                    src@,
                    spec_body_open(
                        src@,
                        spec_ident_end(src@, spec_skip_trivia(src@, start + kw@.len())),
                    ),
                    spec_init_lex(),
                ) == Some(end as int)
                &&& start < end <= src@.len()
            },
            Err(ScanError::NotFound) => spec_find_decl(src@, 0, spec_init_lex(), kw@, ident@) < 0,
            Err(ScanError::SignatureOnly) => {
                let p = spec_find_decl(src@, 0, spec_init_lex(), kw@, ident@);
                p >= 0 && spec_body_open(
                    src@,
                    spec_ident_end(src@, spec_skip_trivia(src@, p + kw@.len())),
                ) == -1
            },
            Err(ScanError::NoBody) => {
                let p = spec_find_decl(src@, 0, spec_init_lex(), kw@, ident@);
                p >= 0 && spec_body_open(
                    src@,
                    spec_ident_end(src@, spec_skip_trivia(src@, p + kw@.len())),
                ) == -2
            },
            Err(ScanError::Unbalanced) => {
                let p = spec_find_decl(src@, 0, spec_init_lex(), kw@, ident@);
                let ob = spec_body_open(
                    src@,
                    spec_ident_end(src@, spec_skip_trivia(src@, p + kw@.len())),
                );
                p >= 0 && ob >= 0 && spec_scan_close(src@, ob, spec_init_lex()) is None
            },
        },
{
    let mut i: usize = 0;
    let mut st = init_lex();
    while i < src.len()
        invariant
            kw@.len() > 0,
            i <= src@.len(),
            st.depth <= i,
            st.block_depth <= i,
            spec_find_decl(src@, i as int, st, kw@, ident@) == spec_find_decl(
                src@,
                0,
                spec_init_lex(),
                kw@,
                ident@,
            ),
        decreases src@.len() - i,
    {
        let c = src[i];
        let mut opener = c == DQUOTE || c == SQUOTE;
        if c == SLASH && i + 1 < src.len() && (src[i + 1] == SLASH || src[i + 1] == STAR) {
            opener = true;
        }
        if c == LOWER_R {
            let h = hash_run(src, i + 1);
            if i + 1 + h < src.len() && src[i + 1 + h] == DQUOTE {
                opener = true;
            }
            proof {
                assert(spec_raw_opens(src@, i as int) == (i + 1 + h < src@.len() && src@[i + 1
                    + h as int] == DQUOTE));
            }
        }
        proof {
            assert(opener == spec_opener(src@, i as int));
        }
        let in_code = match st.mode {
            LexMode::Code => true,
            _ => false,
        };
        if in_code && !opener && is_token_at(src, i, kw) {
            // a candidate: check the identifier that follows
            let after_kw = i + kw.len();
            let j = skip_ws_and_comments(src, after_kw);
            let (name, name_end) = parse_ident(src, j);
            let matches_ident = match name {
                Some(n) => crate::text::eq_bytes(n.as_slice(), ident),
                None => false,
            };
            if matches_ident {
                proof {
                    assert(src@.subrange(j as int, name_end as int) == ident@);
                    assert(spec_ident_matches(src@, i + kw@.len(), ident@));
                    assert(spec_find_decl(src@, i as int, st, kw@, ident@) == i as int);
                }
                match body_open(src, name_end) {
                    Some(Ok(ob)) => {
                        match consume_balanced_block(src, ob) {
                            Ok(end) => {
                                return Ok((i, end));
                            },
                            Err(_) => {
                                return Err(ScanError::Unbalanced);
                            },
                        }
                    },
                    Some(Err(_)) => {
                        return Err(ScanError::SignatureOnly);
                    },
                    None => {
                        return Err(ScanError::NoBody);
                    },
                }
            }
            proof {
                assert(!spec_ident_matches(src@, i + kw@.len(), ident@));
            }
        }
        let ghost old_i = i as int;
        let ghost old_st = st;
        let (st2, ni) = lex_step(src, i, st);
        proof {
            assert(spec_find_decl(src@, old_i, old_st, kw@, ident@) == spec_find_decl(
                src@,
                ni as int,
                st2,
                kw@,
                ident@,
            ));
        }
        st = st2;
        i = ni;
    }
    Err(ScanError::NotFound)
}

/// Number of newline bytes strictly before position `p`.
pub open spec fn spec_count_nl(s: Seq<u8>, p: int) -> int
    decreases p,
{
    if p <= 0 || p > s.len() {
        0
    } else {
        spec_count_nl(s, p - 1) + if s[p - 1] == NL {
            1int
        } else {
            0int
        }
    }
}

/// The 1-based line number of byte offset `p`: newlines before it, plus one.
pub open spec fn spec_line_of(s: Seq<u8>, p: int) -> int {
    spec_count_nl(s, p) + 1
}

proof fn lemma_count_nl_bounds(s: Seq<u8>, p: int)
    requires
        0 <= p <= s.len(),
    ensures
        0 <= spec_count_nl(s, p) <= p,
    decreases p,
{
    if 0 < p {
        lemma_count_nl_bounds(s, p - 1);
    }
}

/// Count newline bytes strictly before `p`.
pub fn count_nl_before(s: &[u8], p: usize) -> (r: usize)
    requires
        p <= s@.len(),
    ensures
        r == spec_count_nl(s@, p as int),
        r <= p,
{
    proof {
        lemma_count_nl_bounds(s@, p as int);
    }
    let mut cnt: usize = 0;
    let mut i: usize = 0;
    while i < p
        invariant
            i <= p <= s@.len(),
            cnt == spec_count_nl(s@, i as int),
            cnt <= i,
        decreases p - i,
    {
        if s[i] == NL {
            cnt = cnt + 1;
        }
        i = i + 1;
    }
    cnt
}

/// Offset of 1-based `line` plus `col`, clamped to the line's length
/// (counting its newline); the input length when the line is out of range.
pub open spec fn spec_offset_from_line_col(s: Seq<u8>, off: int, line: int, col: int) -> int
    decreases line,
{
    if off < 0 || off >= s.len() {
        s.len() as int
    } else {
        let nl = crate::text::spec_next_nl(s, off);
        let llen = if nl < s.len() {
            nl - off + 1
        } else {
            s.len() - off
        };
        if line <= 1 {
            off + if col < llen {
                col
            } else {
                llen
            }
        } else {
            spec_offset_from_line_col(s, off + llen, line - 1, col)
        }
    }
}

/// Convert a 1-based line and 0-based column into a byte offset, walking the
/// source line by line; positions past the end clamp to the input length.
pub fn offset_from_line_col(src: &[u8], line_1based: usize, col_0based: usize) -> (r: usize)
    ensures
        r == spec_offset_from_line_col(src@, 0, line_1based as int, col_0based as int),
        r <= src@.len(),
{
    let mut off: usize = 0;
    let mut line: usize = line_1based;
    while off < src.len()
        invariant
            off <= src@.len(),
            spec_offset_from_line_col(src@, off as int, line as int, col_0based as int)
                == spec_offset_from_line_col(src@, 0, line_1based as int, col_0based as int),
        decreases line + src@.len() - off,
    {
        let nl = match crate::text::find_byte(src, NL, off) {
            Some(p) => p,
            None => src.len(),
        };
        proof {
            crate::text::lemma_next_nl_bounds(src@, off as int);
            assert(crate::text::spec_next_nl(src@, off as int) == nl as int) by {
                let nj = crate::text::spec_next_nl(src@, off as int);
                if nj < nl {
                    assert(src@[nj] == NL);
                } else if nj > nl {
                    assert(nl < src@.len() && src@[nl as int] == NL);
                }
            }
        }
        let llen = if nl < src.len() {
            nl - off + 1
        } else {
            src.len() - off
        };
        if line <= 1 {
            let c = if col_0based < llen {
                col_0based
            } else {
                llen
            };
            return off + c;
        }
        off = off + llen;
        line = line - 1;
    }
    proof {
        assert(spec_offset_from_line_col(src@, off as int, line as int, col_0based as int)
            == src@.len() as int);
    }
    src.len()
}

} // verus!

