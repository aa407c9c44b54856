//! Byte-string primitives shared by the whole crate: ASCII case folding,
//! prefix/suffix/substring tests, line splitting and joining, and trimming.
//! Text is handled as UTF-8 bytes throughout the library.
use vstd::prelude::*;

verus! {

pub const NUL: u8 = 0;

pub const HT: u8 = 9;

pub const NL: u8 = 10;

pub const CR: u8 = 13;

pub const SP: u8 = 32;

pub const UPPER_A: u8 = 65;

pub const UPPER_Z: u8 = 90;

pub const LOWER_A: u8 = 97;

pub const LOWER_Z: u8 = 122;

pub const DIGIT_0: u8 = 48;

pub const DIGIT_9: u8 = 57;

/// ASCII lowercase of one byte.
pub open spec fn spec_lower(b: u8) -> u8 {
    if UPPER_A <= b && b <= UPPER_Z {
        (b + 32) as u8
    } else {
        b
    }
}

/// ASCII lowercase of a byte string.
pub open spec fn spec_lower_seq(s: Seq<u8>) -> Seq<u8> {
    s.map(|_i: int, b: u8| spec_lower(b))
}

pub fn lower_byte(b: u8) -> (r: u8)
    ensures
        r == spec_lower(b),
{
    if UPPER_A <= b && b <= UPPER_Z {
        b + 32
    } else {
        b
    }
}

/// ASCII-lowercased copy of a byte string.
pub fn to_lower(s: &[u8]) -> (r: Vec<u8>)
    ensures
        r@ == spec_lower_seq(s@),
{
    let mut out: Vec<u8> = Vec::new();
    let mut i: usize = 0;
    while i < s.len()
        invariant
            i <= s@.len(),
            out@ == spec_lower_seq(s@.take(i as int)),
        decreases s@.len() - i,
    {
        out.push(lower_byte(s[i]));
        proof {
            assert(out@ =~= spec_lower_seq(s@.take(i + 1)));
        }
        i = i + 1;
    }
    proof {
        assert(s@.take(s@.len() as int) =~= s@);
    }
    out
}

pub open spec fn spec_is_ws(b: u8) -> bool {
    b == SP || b == HT || b == NL || b == CR
}

pub fn is_ws(b: u8) -> (r: bool)
    ensures
        r == spec_is_ws(b),
{
    b == SP || b == HT || b == NL || b == CR
}

pub open spec fn spec_starts_with(s: Seq<u8>, p: Seq<u8>) -> bool {
    p.len() <= s.len() && s.take(p.len() as int) == p
}

pub open spec fn spec_ends_with(s: Seq<u8>, p: Seq<u8>) -> bool {
    p.len() <= s.len() && s.skip(s.len() - p.len()) == p
}

/// Whether `n` occurs in `s` starting exactly at `i`.
pub open spec fn spec_match_at(s: Seq<u8>, n: Seq<u8>, i: int) -> bool {
    0 <= i && i + n.len() <= s.len() && s.subrange(i, i + n.len()) == n
}

pub open spec fn spec_contains_from(s: Seq<u8>, n: Seq<u8>, from: int) -> bool {
    exists|i: int| from <= i && spec_match_at(s, n, i)
}

pub open spec fn spec_contains(s: Seq<u8>, n: Seq<u8>) -> bool {
    spec_contains_from(s, n, 0)
}

/// Whether the bytes `a@` and `b@` are equal.
pub fn eq_bytes(a: &[u8], b: &[u8]) -> (r: bool)
    ensures
        r == (a@ == b@),
{
    if a.len() != b.len() {
        proof {
            assert(a@.len() != b@.len());
        }
        return false;
    }
    let mut i: usize = 0;
    while i < a.len()
        invariant
            i <= a@.len(),
            a@.len() == b@.len(),
            forall|j: int| 0 <= j < i ==> a@[j] == b@[j],
        decreases a@.len() - i,
    {
        if a[i] != b[i] {
            proof {
                assert(a@ != b@);
            }
            return false;
        }
        i = i + 1;
    }
    proof {
        assert(a@ =~= b@);
    }
    true
}

/// Whether `n` occurs in `s` at exactly position `at`.
pub fn match_at(s: &[u8], n: &[u8], at: usize) -> (r: bool)
    ensures
        r == spec_match_at(s@, n@, at as int),
{
    if at > s.len() || s.len() - at < n.len() {
        proof {
            assert(!spec_match_at(s@, n@, at as int));
        }
        return false;
    }
    let mut i: usize = 0;
    while i < n.len()
        invariant
            i <= n@.len(),
            at + n@.len() <= s@.len(),
            s@.len() <= usize::MAX,
            forall|j: int| 0 <= j < i ==> s@[at + j] == n@[j],
        decreases n@.len() - i,
    {
        if s[at + i] != n[i] {
            proof {
                assert(s@.subrange(at as int, at + n@.len())[i as int] == s@[at + i]);
                assert(s@.subrange(at as int, at + n@.len()) != n@);
            }
            return false;
        }
        i = i + 1;
    }
    proof {
        assert(s@.subrange(at as int, at + n@.len()) =~= n@);
    }
    true
}

pub fn starts_with(s: &[u8], p: &[u8]) -> (r: bool)
    ensures
        r == spec_starts_with(s@, p@),
{
    proof {
        if p@.len() <= s@.len() {
            assert(s@.subrange(0, p@.len() as int) =~= s@.take(p@.len() as int));
        }
    }
    match_at(s, p, 0)
}

pub fn ends_with(s: &[u8], p: &[u8]) -> (r: bool)
    ensures
        r == spec_ends_with(s@, p@),
{
    if p.len() > s.len() {
        return false;
    }
    proof {
        assert(s@.subrange(s@.len() - p@.len(), s@.len() - p@.len() + p@.len()) =~= s@.skip(
            s@.len() - p@.len(),
        ));
    }
    match_at(s, p, s.len() - p.len())
}

/// Index of the first occurrence of `n` in `s` at or after `from`.
pub fn find_sub(s: &[u8], n: &[u8], from: usize) -> (r: Option<usize>)
    requires
        n@.len() > 0,
    ensures
        match r {
            Some(i) => from <= i && spec_match_at(s@, n@, i as int) && forall|j: int|
                from <= j < i ==> !spec_match_at(s@, n@, j),
            None => !spec_contains_from(s@, n@, from as int),
        },
{
    let mut i: usize = from;
    while i < s.len()
        invariant
            from <= i,
            forall|j: int| from <= j < i ==> !spec_match_at(s@, n@, j),
        decreases s@.len() - i,
    {
        if match_at(s, n, i) {
            return Some(i);
        }
        i = i + 1;
    }
    proof {
        assert forall|j: int| from <= j implies !spec_match_at(s@, n@, j) by {
            if j < i {
            } else {
                assert(j + n@.len() > s@.len());
            }
        }
    }
    None
}

pub fn contains_sub(s: &[u8], n: &[u8]) -> (r: bool)
    requires
        n@.len() > 0,
    ensures
        r == spec_contains(s@, n@),
{
    match find_sub(s, n, 0) {
        Some(_) => true,
        None => false,
    }
}

/// Index of the first occurrence of byte `b` in `s` at or after `from`.
pub fn find_byte(s: &[u8], b: u8, from: usize) -> (r: Option<usize>)
    ensures
        match r {
            Some(i) => from <= i < s@.len() && s@[i as int] == b && forall|j: int|
                from <= j < i ==> s@[j] != b,
            None => forall|j: int| from <= j < s@.len() ==> s@[j] != b,
        },
{
    let mut i: usize = from;
    while i < s.len()
        invariant
            from <= i,
            forall|j: int| from <= j < i ==> s@[j] != b,
        decreases s@.len() - i,
    {
        if s[i] == b {
            return Some(i);
        }
        i = i + 1;
    }
    None
}

pub fn contains_byte(s: &[u8], b: u8) -> (r: bool)
    ensures
        r == exists|j: int| 0 <= j < s@.len() && s@[j] == b,
{
    match find_byte(s, b, 0) {
        Some(_) => true,
        None => false,
    }
}

/// Copy of `s[a..b]`.
pub fn sub_vec(s: &[u8], a: usize, b: usize) -> (r: Vec<u8>)
    requires
        a <= b <= s@.len(),
    ensures
        r@ == s@.subrange(a as int, b as int),
{
    let mut out: Vec<u8> = Vec::new();
    let mut i: usize = a;
    while i < b
        invariant
            a <= i <= b <= s@.len(),
            out@ == s@.subrange(a as int, i as int),
        decreases b - i,
    {
        out.push(s[i]);
        proof {
            assert(out@ =~= s@.subrange(a as int, i + 1));
        }
        i = i + 1;
    }
    out
}

/// Decimal digits of `n`, most significant first.
pub open spec fn spec_decimal(n: int) -> Seq<u8>
    decreases n,
{
    if n < 10 {
        seq![(DIGIT_0 + if n < 0 {
            0int
        } else {
            n
        }) as u8]
    } else {
        spec_decimal(n / 10) + seq![(DIGIT_0 + n % 10) as u8]
    }
}

/// Render an integer in decimal.
pub fn usize_to_decimal(n: usize) -> (r: Vec<u8>)
    ensures
        r@ == spec_decimal(n as int),
        r@.len() >= 1,
    decreases n,
{
    if n < 10 {
        let mut out: Vec<u8> = Vec::new();
        out.push(DIGIT_0 + (n as u8));
        proof {
            assert(out@ =~= spec_decimal(n as int));
        }
        out
    } else {
        let mut out = usize_to_decimal(n / 10);
        out.push(DIGIT_0 + ((n % 10) as u8));
        proof {
            assert(out@ =~= spec_decimal(n as int));
        }
        out
    }
}

/// Fresh copy of a byte slice.
pub fn copy_bytes(s: &[u8]) -> (r: Vec<u8>)
    ensures
        r@ == s@,
{
    let r = sub_vec(s, 0, s.len());
    proof {
        assert(s@.subrange(0, s@.len() as int) =~= s@);
    }
    r
}

/// Append all of `src` to `dst`.
pub fn push_all(dst: &mut Vec<u8>, src: &[u8])
    ensures
        final(dst)@ == old(dst)@ + src@,
{
    let mut i: usize = 0;
    while i < src.len()
        invariant
            i <= src@.len(),
            dst@ == old(dst)@ + src@.take(i as int),
        decreases src@.len() - i,
    {
        dst.push(src[i]);
        proof {
            assert(dst@ =~= old(dst)@ + src@.take(i + 1));
        }
        i = i + 1;
    }
    proof {
        assert(old(dst)@ + src@.take(src@.len() as int) =~= old(dst)@ + src@);
    }
}

/// Position just past leading ASCII whitespace.
pub open spec fn spec_ws_start(s: Seq<u8>) -> int
    decreases s.len(),
{
    if s.len() == 0 || !spec_is_ws(s[0]) {
        0
    } else {
        1 + spec_ws_start(s.skip(1))
    }
}

/// The sequence with leading and trailing ASCII whitespace removed.
pub open spec fn spec_trim(s: Seq<u8>) -> Seq<u8> {
    spec_trim_end(spec_trim_start(s))
}

pub open spec fn spec_trim_start(s: Seq<u8>) -> Seq<u8>
    decreases s.len(),
{
    if s.len() > 0 && spec_is_ws(s[0]) {
        spec_trim_start(s.skip(1))
    } else {
        s
    }
}

pub open spec fn spec_trim_end(s: Seq<u8>) -> Seq<u8>
    decreases s.len(),
{
    if s.len() > 0 && spec_is_ws(s[s.len() - 1]) {
        spec_trim_end(s.take(s.len() - 1))
    } else {
        s
    }
}

pub proof fn lemma_trim_start_at(s: Seq<u8>, k: int)
    requires
        0 <= k <= s.len(),
        forall|j: int| 0 <= j < k ==> spec_is_ws(s[j]),
    ensures
        spec_trim_start(s) == spec_trim_start(s.skip(k)),
    decreases k,
{
    if k > 0 {
        assert(spec_is_ws(s[0]));
        assert(s.skip(1).skip(k - 1) =~= s.skip(k));
        lemma_trim_start_at(s.skip(1), k - 1);
    } else {
        assert(s.skip(0) =~= s);
    }
}

pub proof fn lemma_trim_end_at(s: Seq<u8>, k: int)
    requires
        0 <= k <= s.len(),
        forall|j: int| k <= j < s.len() ==> spec_is_ws(s[j]),
    ensures
        spec_trim_end(s) == spec_trim_end(s.take(k)),
    decreases s.len() - k,
{
    if k < s.len() {
        assert(spec_is_ws(s[s.len() - 1]));
        assert(s.take(s.len() - 1).take(k) =~= s.take(k));
        lemma_trim_end_at(s.take(s.len() - 1), k);
    } else {
        assert(s.take(s.len() as int) =~= s);
    }
}

/// Copy of `s` with leading and trailing ASCII whitespace removed.
pub fn trim(s: &[u8]) -> (r: Vec<u8>)
    ensures
        r@ == spec_trim(s@),
{
    let mut a: usize = 0;
    while a < s.len() && is_ws(s[a])
        invariant
            a <= s@.len(),
            forall|j: int| 0 <= j < a ==> spec_is_ws(s@[j]),
        decreases s@.len() - a,
    {
        a = a + 1;
    }
    proof {
        lemma_trim_start_at(s@, a as int);
        if a < s@.len() {
            assert(s@.skip(a as int)[0] == s@[a as int]);
            assert(spec_trim_start(s@.skip(a as int)) == s@.skip(a as int));
        } else {
            assert(s@.skip(a as int) =~= Seq::<u8>::empty());
            assert(spec_trim_start(s@) =~= s@.skip(a as int));
        }
    }
    let mut b: usize = s.len();
    while b > a && is_ws(s[b - 1])
        invariant
            a <= b <= s@.len(),
            forall|j: int| b <= j < s@.len() ==> spec_is_ws(s@[j]),
        decreases b,
    {
        b = b - 1;
    }
    proof {
        let t = s@.skip(a as int);
        lemma_trim_end_at(t, b - a);
        if b > a {
            assert(t.take(b - a)[(b - a) - 1] == s@[b - 1]);
            assert(spec_trim_end(t.take(b - a)) == t.take(b - a));
        } else {
            assert(t.take(b - a) =~= Seq::<u8>::empty());
            assert(spec_trim_end(t.take(b - a)) =~= t.take(b - a));
        }
        assert(s@.subrange(a as int, b as int) =~= t.take(b - a));
    }
    sub_vec(s, a, b)
}

/// Index of the first `\n` in `s` at or after `i`, or `s.len()` if none.
pub open spec fn spec_next_nl(s: Seq<u8>, i: int) -> int
    decreases s.len() - i,
{
    if i < 0 {
        0
    } else if i >= s.len() {
        s.len() as int
    } else if s[i] == NL {
        i
    } else {
        spec_next_nl(s, i + 1)
    }
}

pub proof fn lemma_next_nl_bounds(s: Seq<u8>, i: int)
    requires
        0 <= i <= s.len(),
    ensures
        i <= spec_next_nl(s, i) <= s.len(),
        spec_next_nl(s, i) < s.len() ==> s[spec_next_nl(s, i)] == NL,
        forall|j: int| i <= j < spec_next_nl(s, i) ==> s[j] != NL,
    decreases s.len() - i,
{
    if i < s.len() && s[i] != NL {
        lemma_next_nl_bounds(s, i + 1);
    }
}

/// One text line: bytes `i..j` with a single trailing carriage return removed.
pub open spec fn spec_line_at(s: Seq<u8>, i: int, j: int) -> Seq<u8> {
    let raw = s.subrange(i, j);
    if raw.len() > 0 && raw[raw.len() - 1] == CR {
        raw.take(raw.len() - 1)
    } else {
        raw
    }
}

/// The lines of `s[i..]`, split at `\n` with trailing `\r` stripped, as
/// `str::lines` does; a trailing newline produces no final empty line.
pub open spec fn spec_lines_from(s: Seq<u8>, i: int) -> Seq<Seq<u8>>
    decreases s.len() - i,
{
    if i < 0 || i >= s.len() {
        Seq::empty()
    } else {
        let j = spec_next_nl(s, i);
        if j < i || j >= s.len() {
            seq![spec_line_at(s, i, s.len() as int)]
        } else {
            seq![spec_line_at(s, i, j)] + spec_lines_from(s, j + 1)
        }
    }
}

pub open spec fn spec_lines(s: Seq<u8>) -> Seq<Seq<u8>> {
    spec_lines_from(s, 0)
}

/// Split into lines as `str::lines` does on the corresponding text.
pub fn split_lines(s: &[u8]) -> (r: Vec<Vec<u8>>)
    ensures
        r.deep_view() == spec_lines(s@),
{
    let mut out: Vec<Vec<u8>> = Vec::new();
    let mut i: usize = 0;
    while i < s.len()
        invariant
            0 <= i,
            out.deep_view() + spec_lines_from(s@, i as int) == spec_lines(s@),
        decreases s@.len() - i,
    {
        let j = match find_byte(s, NL, i) {
            Some(j) => j,
            None => s.len(),
        };
        proof {
            lemma_next_nl_bounds(s@, i as int);
            assert(spec_next_nl(s@, i as int) == j as int) by {
                let nj = spec_next_nl(s@, i as int);
                if nj < j {
                    assert(s@[nj] == NL);
                } else if nj > j {
                    assert(j < s@.len() && s@[j as int] == NL);
                }
            }
        }
        let line_end = if j > i && s[j - 1] == CR {
            j - 1
        } else {
            j
        };
        let line = sub_vec(s, i, line_end);
        proof {
            let raw = s@.subrange(i as int, j as int);
            if j > i && s@[j - 1] == CR {
                assert(raw[raw.len() - 1] == s@[j - 1]);
                assert(s@.subrange(i as int, line_end as int) =~= raw.take(raw.len() - 1));
            }
            assert(line@ == spec_line_at(s@, i as int, j as int));
        }
        let ghost prev = out.deep_view();
        let ghost line_view = line@;
        out.push(line);
        proof {
            assert(out.deep_view() =~~= prev + seq![line_view]);
            if j < s@.len() {
                assert(spec_lines_from(s@, i as int) == seq![spec_line_at(s@, i as int, j as int)]
                    + spec_lines_from(s@, j + 1));
            } else {
                assert(spec_lines_from(s@, i as int) == seq![
                    spec_line_at(s@, i as int, s@.len() as int),
                ]);
                assert(spec_lines_from(s@, j as int) =~= Seq::<Seq<u8>>::empty());
            }
            assert(out.deep_view() + spec_lines_from(
                s@,
                if j < s@.len() {
                    j + 1
                } else {
                    j as int
                },
            ) =~= spec_lines(s@));
        }
        i = if j < s.len() {
            j + 1
        } else {
            j
        };
    }
    proof {
        assert(spec_lines_from(s@, i as int) =~= Seq::<Seq<u8>>::empty());
        assert(out.deep_view() =~= spec_lines(s@));
    }
    out
}

/// The segments of `s[i..]` split after each newline byte; every byte is
/// kept, so the units concatenate back to the text.
pub open spec fn spec_units_from(s: Seq<u8>, i: int) -> Seq<Seq<u8>>
    decreases s.len() - i,
{
    if i < 0 || i >= s.len() {
        Seq::empty()
    } else {
        let j = spec_next_nl(s, i);
        if j < i || j >= s.len() {
            seq![s.subrange(i, s.len() as int)]
        } else {
            seq![s.subrange(i, j + 1)] + spec_units_from(s, j + 1)
        }
    }
}

pub open spec fn spec_units(s: Seq<u8>) -> Seq<Seq<u8>> {
    spec_units_from(s, 0)
}

/// Concatenation of a list of byte strings.
pub open spec fn spec_concat(xs: Seq<Seq<u8>>) -> Seq<u8>
    decreases xs.len(),
{
    if xs.len() == 0 {
        Seq::empty()
    } else {
        xs[0] + spec_concat(xs.skip(1))
    }
}

pub proof fn lemma_concat_cons(head: Seq<u8>, rest: Seq<Seq<u8>>)
    ensures
        spec_concat(seq![head] + rest) == head + spec_concat(rest),
{
    assert((seq![head] + rest)[0] == head);
    assert((seq![head] + rest).skip(1) =~= rest);
}

/// The units of `s[i..]` concatenate back to exactly `s[i..]`.
pub proof fn lemma_units_tile(s: Seq<u8>, i: int)
    requires
        0 <= i <= s.len(),
    ensures
        spec_concat(spec_units_from(s, i)) == s.skip(i),
    decreases s.len() - i,
{
    if i >= s.len() {
        assert(s.skip(i) =~= Seq::<u8>::empty());
    } else {
        lemma_next_nl_bounds(s, i);
        let j = spec_next_nl(s, i);
        if j >= s.len() {
            assert(spec_units_from(s, i) == seq![s.subrange(i, s.len() as int)]);
            assert(seq![s.subrange(i, s.len() as int)].skip(1) =~= Seq::<Seq<u8>>::empty());
            assert(spec_concat(Seq::<Seq<u8>>::empty()) == Seq::<u8>::empty());
            assert(seq![s.subrange(i, s.len() as int)][0] == s.subrange(i, s.len() as int));
            assert(spec_concat(spec_units_from(s, i)) =~= s.subrange(i, s.len() as int));
            assert(s.subrange(i, s.len() as int) =~= s.skip(i));
        } else {
            lemma_units_tile(s, j + 1);
            lemma_concat_cons(s.subrange(i, j + 1), spec_units_from(s, j + 1));
            assert(s.subrange(i, j + 1) + s.skip(j + 1) =~= s.skip(i));
        }
    }
}

/// Split into line units, each keeping its trailing newline byte.
pub fn split_inclusive_lines(s: &[u8]) -> (r: Vec<Vec<u8>>)
    ensures
        r.deep_view() == spec_units(s@),
{
    let mut out: Vec<Vec<u8>> = Vec::new();
    let mut i: usize = 0;
    while i < s.len()
        invariant
            0 <= i,
            out.deep_view() + spec_units_from(s@, i as int) == spec_units(s@),
        decreases s@.len() - i,
    {
        let j = match find_byte(s, NL, i) {
            Some(j) => j,
            None => s.len(),
        };
        proof {
            lemma_next_nl_bounds(s@, i as int);
            assert(spec_next_nl(s@, i as int) == j as int) by {
                let nj = spec_next_nl(s@, i as int);
                if nj < j {
                    assert(s@[nj] == NL);
                } else if nj > j {
                    assert(j < s@.len() && s@[j as int] == NL);
                }
            }
        }
        let unit_end = if j < s.len() {
            j + 1
        } else {
            s.len()
        };
        let unit = sub_vec(s, i, unit_end);
        let ghost prev = out.deep_view();
        let ghost uv = unit@;
        out.push(unit);
        proof {
            assert(out.deep_view() =~~= prev + seq![uv]);
            if j < s@.len() {
                assert(spec_units_from(s@, i as int) == seq![s@.subrange(i as int, j + 1)]
                    + spec_units_from(s@, j + 1));
            } else {
                assert(spec_units_from(s@, i as int) == seq![
                    s@.subrange(i as int, s@.len() as int),
                ]);
                assert(spec_units_from(s@, unit_end as int) =~= Seq::<Seq<u8>>::empty());
            }
            assert(out.deep_view() + spec_units_from(s@, unit_end as int) =~= spec_units(s@));
        }
        i = unit_end;
    }
    proof {
        assert(spec_units_from(s@, i as int) =~= Seq::<Seq<u8>>::empty());
        assert(out.deep_view() =~= spec_units(s@));
    }
    out
}

/// The lines joined with a single `\n` between consecutive lines.
pub open spec fn spec_join_nl(lines: Seq<Seq<u8>>) -> Seq<u8>
    decreases lines.len(),
{
    if lines.len() == 0 {
        Seq::empty()
    } else if lines.len() == 1 {
        lines[0]
    } else {
        lines[0] + seq![NL] + spec_join_nl(lines.skip(1))
    }
}

/// Join lines with `\n` separators.
pub fn join_nl(lines: &Vec<Vec<u8>>) -> (r: Vec<u8>)
    ensures
        r@ == spec_join_nl(lines.deep_view()),
{
    let mut out: Vec<u8> = Vec::new();
    let mut i: usize = 0;
    proof {
        lemma_join_nl_prefix(lines.deep_view(), 0);
    }
    while i < lines.len()
        invariant
            i <= lines@.len(),
            lines.deep_view().len() == lines@.len(),
            out@ == spec_join_nl_prefix(lines.deep_view(), i as int),
        decreases lines@.len() - i,
    {
        if i > 0 {
            out.push(NL);
        }
        push_all(&mut out, lines[i].as_slice());
        proof {
            assert(lines.deep_view()[i as int] == lines@[i as int]@);
            if i == 0 {
                assert(out@ =~= spec_join_nl_prefix(lines.deep_view(), 1));
            } else {
                assert(out@ =~= spec_join_nl_prefix(lines.deep_view(), i + 1));
            }
        }
        i = i + 1;
    }
    proof {
        lemma_join_nl_prefix_full(lines.deep_view());
    }
    out
}

/// Join of the first `k` lines.
pub open spec fn spec_join_nl_prefix(lines: Seq<Seq<u8>>, k: int) -> Seq<u8>
    decreases k,
{
    if k <= 0 {
        Seq::empty()
    } else if k == 1 {
        lines[0]
    } else {
        spec_join_nl_prefix(lines, k - 1) + seq![NL] + lines[k - 1]
    }
}

proof fn lemma_join_nl_prefix(lines: Seq<Seq<u8>>, k: int)
    ensures
        spec_join_nl_prefix(lines, 0) == Seq::<u8>::empty(),
{
}

/// The prefix join over all lines equals the recursive join.
proof fn lemma_join_nl_prefix_full(lines: Seq<Seq<u8>>)
    ensures
        spec_join_nl_prefix(lines, lines.len() as int) == spec_join_nl(lines),
    decreases lines.len(),
{
    if lines.len() > 1 {
        lemma_join_nl_prefix_full(lines.skip(1));
        lemma_join_shift(lines, lines.len() as int);
    }
}

/// Relates prefix joins of `lines` to prefix joins of `lines.skip(1)`.
proof fn lemma_join_shift(lines: Seq<Seq<u8>>, k: int)
    requires
        2 <= k <= lines.len(),
    ensures
        spec_join_nl_prefix(lines, k) == lines[0] + seq![NL] + spec_join_nl_prefix(
            lines.skip(1),
            k - 1,
        ),
    decreases k,
{
    if k == 2 {
        assert(lines.skip(1)[0] == lines[1]);
        assert(spec_join_nl_prefix(lines, 2) == spec_join_nl_prefix(lines, 1) + seq![NL] + lines[1]);
        assert(spec_join_nl_prefix(lines, 1) == lines[0]);
        assert(spec_join_nl_prefix(lines.skip(1), 1) == lines[1]);
        assert(spec_join_nl_prefix(lines, 2) =~= lines[0] + seq![NL] + spec_join_nl_prefix(
            lines.skip(1),
            1,
        ));
    } else {
        lemma_join_shift(lines, k - 1);
        assert(lines.skip(1)[k - 2] == lines[k - 1]);
        assert(spec_join_nl_prefix(lines, k) == spec_join_nl_prefix(lines, k - 1) + seq![NL]
            + lines[k - 1]);
        assert(spec_join_nl_prefix(lines.skip(1), k - 1) == spec_join_nl_prefix(
            lines.skip(1),
            k - 2,
        ) + seq![NL] + lines.skip(1)[k - 2]);
        assert(spec_join_nl_prefix(lines, k) =~= lines[0] + seq![NL] + spec_join_nl_prefix(
            lines.skip(1),
            k - 1,
        ));
    }
}

} // verus!

verus! {

/// Strict lexicographic order on byte strings, with a proper prefix first.
pub open spec fn spec_lex_lt(a: Seq<u8>, b: Seq<u8>) -> bool
    decreases a.len(),
{
    if a.len() == 0 {
        b.len() > 0
    } else if b.len() == 0 {
        false
    } else {
        a[0] < b[0] || (a[0] == b[0] && spec_lex_lt(a.skip(1), b.skip(1)))
    }
}

pub proof fn lemma_lex_trichotomy(a: Seq<u8>, b: Seq<u8>)
    ensures
        spec_lex_lt(a, b) || spec_lex_lt(b, a) || a == b,
        spec_lex_lt(a, b) ==> !spec_lex_lt(b, a) && a != b,
    decreases a.len(),
{
    if a.len() > 0 && b.len() > 0 {
        lemma_lex_trichotomy(a.skip(1), b.skip(1));
        if !spec_lex_lt(a, b) && !spec_lex_lt(b, a) {
            assert(a[0] == b[0] && a.skip(1) == b.skip(1));
            assert(a =~= seq![a[0]] + a.skip(1));
            assert(b =~= seq![b[0]] + b.skip(1));
        }
    } else {
        if a.len() == 0 && b.len() == 0 {
            assert(a =~= b);
        }
    }
}

pub proof fn lemma_lex_transitive(a: Seq<u8>, b: Seq<u8>, c: Seq<u8>)
    requires
        spec_lex_lt(a, b),
        spec_lex_lt(b, c),
    ensures
        spec_lex_lt(a, c),
    decreases a.len(),
{
    if a.len() > 0 && b.len() > 0 && c.len() > 0 {
        if a[0] == b[0] && b[0] == c[0] {
            lemma_lex_transitive(a.skip(1), b.skip(1), c.skip(1));
        }
    }
}

/// Strict lexicographic comparison of two byte strings.
pub fn lex_lt(a: &[u8], b: &[u8]) -> (r: bool)
    ensures
        r == spec_lex_lt(a@, b@),
{
    let mut i: usize = 0;
    proof {
        assert(a@.skip(0) =~= a@);
        assert(b@.skip(0) =~= b@);
    }
    while i < a.len() && i < b.len()
        invariant
            i <= a@.len(),
            i <= b@.len(),
            forall|j: int| 0 <= j < i ==> a@[j] == b@[j],
            spec_lex_lt(a@, b@) == spec_lex_lt(a@.skip(i as int), b@.skip(i as int)),
        decreases a@.len() - i,
    {
        if a[i] < b[i] {
            proof {
                assert(a@.skip(i as int)[0] == a@[i as int]);
                assert(b@.skip(i as int)[0] == b@[i as int]);
            }
            return true;
        }
        if a[i] > b[i] {
            proof {
                assert(a@.skip(i as int)[0] == a@[i as int]);
                assert(b@.skip(i as int)[0] == b@[i as int]);
            }
            return false;
        }
        proof {
            assert(a@.skip(i as int)[0] == a@[i as int]);
            assert(b@.skip(i as int)[0] == b@[i as int]);
            assert(a@.skip(i as int).skip(1) =~= a@.skip(i + 1));
            assert(b@.skip(i as int).skip(1) =~= b@.skip(i + 1));
        }
        i = i + 1;
    }
    proof {
        if i >= a@.len() {
            assert(a@.skip(i as int).len() == 0);
        } else {
            assert(b@.skip(i as int).len() == 0);
        }
    }
    a.len() < b.len()
}

/// The string with every leading repetition of `p` removed.
pub open spec fn spec_strip_repeat(s: Seq<u8>, p: Seq<u8>) -> Seq<u8>
    decreases s.len(),
{
    if p.len() > 0 && spec_starts_with(s, p) {
        spec_strip_repeat(s.skip(p.len() as int), p)
    } else {
        s
    }
}

/// Strip every leading repetition of `p`.
pub fn strip_repeat(s: &[u8], p: &[u8]) -> (r: Vec<u8>)
    requires
        p@.len() > 0,
    ensures
        r@ == spec_strip_repeat(s@, p@),
{
    let mut cur = copy_bytes(s);
    while starts_with(cur.as_slice(), p)
        invariant
            p@.len() > 0,
            spec_strip_repeat(cur@, p@) == spec_strip_repeat(s@, p@),
        decreases cur@.len(),
    {
        let next = sub_vec(cur.as_slice(), p.len(), cur.len());
        proof {
            assert(next@ =~= cur@.skip(p@.len() as int));
        }
        cur = next;
    }
    cur
}

/// The string with every trailing repetition of `p` removed.
pub open spec fn spec_strip_repeat_end(s: Seq<u8>, p: Seq<u8>) -> Seq<u8>
    decreases s.len(),
{
    if p.len() > 0 && spec_ends_with(s, p) {
        spec_strip_repeat_end(s.take(s.len() - p.len()), p)
    } else {
        s
    }
}

/// Strip every trailing repetition of `p`.
pub fn strip_repeat_end(s: &[u8], p: &[u8]) -> (r: Vec<u8>)
    requires
        p@.len() > 0,
    ensures
        r@ == spec_strip_repeat_end(s@, p@),
{
    let mut cur = copy_bytes(s);
    while ends_with(cur.as_slice(), p)
        invariant
            p@.len() > 0,
            spec_strip_repeat_end(cur@, p@) == spec_strip_repeat_end(s@, p@),
        decreases cur@.len(),
    {
        let next = sub_vec(cur.as_slice(), 0, cur.len() - p.len());
        proof {
            assert(next@ =~= cur@.take(cur@.len() - p@.len()));
        }
        cur = next;
    }
    cur
}

/// Copy with leading ASCII whitespace removed.
pub fn trim_start(s: &[u8]) -> (r: Vec<u8>)
    ensures
        r@ == spec_trim_start(s@),
{
    let mut a: usize = 0;
    while a < s.len() && is_ws(s[a])
        invariant
            a <= s@.len(),
            forall|j: int| 0 <= j < a ==> spec_is_ws(s@[j]),
        decreases s@.len() - a,
    {
        a = a + 1;
    }
    proof {
        lemma_trim_start_at(s@, a as int);
        if a < s@.len() {
            assert(s@.skip(a as int)[0] == s@[a as int]);
            assert(spec_trim_start(s@.skip(a as int)) == s@.skip(a as int));
        } else {
            assert(s@.skip(a as int) =~= Seq::<u8>::empty());
            assert(spec_trim_start(s@) =~= s@.skip(a as int));
        }
    }
    let r = sub_vec(s, a, s.len());
    proof {
        assert(r@ =~= s@.skip(a as int));
    }
    r
}

/// Copy with trailing ASCII whitespace removed.
pub fn trim_end(s: &[u8]) -> (r: Vec<u8>)
    ensures
        r@ == spec_trim_end(s@),
{
    let mut b: usize = s.len();
    while b > 0 && is_ws(s[b - 1])
        invariant
            b <= s@.len(),
            forall|j: int| b <= j < s@.len() ==> spec_is_ws(s@[j]),
        decreases b,
    {
        b = b - 1;
    }
    proof {
        lemma_trim_end_at(s@, b as int);
        if b > 0 {
            assert(s@.take(b as int)[b - 1] == s@[b - 1]);
            assert(spec_trim_end(s@.take(b as int)) == s@.take(b as int));
        } else {
            assert(s@.take(0) =~= Seq::<u8>::empty());
            assert(spec_trim_end(s@.take(0)) =~= s@.take(0));
        }
    }
    let r = sub_vec(s, 0, b);
    proof {
        assert(r@ =~= s@.take(b as int));
    }
    r
}

/// Every occurrence of `from` replaced by `to`, scanning left to right
/// without revisiting replaced text.
pub open spec fn spec_replace_all(s: Seq<u8>, i: int, from: Seq<u8>, to: Seq<u8>) -> Seq<u8>
    decreases s.len() - i,
{
    if i < 0 || i >= s.len() || from.len() == 0 {
        Seq::empty()
    } else if spec_match_at(s, from, i) {
        to + spec_replace_all(s, i + from.len(), from, to)
    } else {
        seq![s[i]] + spec_replace_all(s, i + 1, from, to)
    }
}

/// Replace every occurrence of `from` by `to`.
pub fn replace_all(s: &[u8], from: &[u8], to: &[u8]) -> (r: Vec<u8>)
    requires
        from@.len() > 0,
    ensures
        r@ == spec_replace_all(s@, 0, from@, to@),
{
    let mut out: Vec<u8> = Vec::new();
    let mut i: usize = 0;
    proof {
        assert(out@ + spec_replace_all(s@, 0, from@, to@) =~= spec_replace_all(s@, 0, from@, to@));
    }
    while i < s.len()
        invariant
            from@.len() > 0,
            0 <= i,
            out@ + spec_replace_all(s@, i as int, from@, to@) == spec_replace_all(
                s@,
                0,
                from@,
                to@,
            ),
        decreases s@.len() - i,
    {
        let ghost o0 = out@;
        if match_at(s, from, i) {
            push_all(&mut out, to);
            proof {
                assert(out@ + spec_replace_all(s@, i + from@.len(), from@, to@) =~= o0
                    + spec_replace_all(s@, i as int, from@, to@));
            }
            i = i + from.len();
        } else {
            out.push(s[i]);
            proof {
                assert(out@ + spec_replace_all(s@, i + 1, from@, to@) =~= o0 + spec_replace_all(
                    s@,
                    i as int,
                    from@,
                    to@,
                ));
            }
            i = i + 1;
        }
    }
    proof {
        assert(spec_replace_all(s@, i as int, from@, to@) =~= Seq::<u8>::empty());
        assert(out@ =~= out@ + spec_replace_all(s@, i as int, from@, to@));
    }
    out
}

/// The bytes of an ASCII character sequence.
pub open spec fn ascii_bytes(s: Seq<char>) -> Seq<u8> {
    Seq::new(s.len(), |i: int| s[i] as u8)
}

/// The bytes of an ASCII string literal, as a fresh vector.
pub fn lit(s: &str) -> (r: Vec<u8>)
    requires
        vstd::string::is_ascii(s),
    ensures
        r@ == ascii_bytes(s@),
{
    broadcast use vstd::string::is_ascii_spec_bytes;

    let b = s.as_bytes();
    let mut out: Vec<u8> = Vec::new();
    let mut i: usize = 0;
    while i < b.len()
        invariant
            i <= b@.len(),
            out@ == b@.take(i as int),
        decreases b@.len() - i,
    {
        out.push(b[i]);
        proof {
            assert(out@ =~= b@.take(i + 1));
        }
        i = i + 1;
    }
    proof {
        assert(out@ =~= b@);
        assert(out@ =~= ascii_bytes(s@));
    }
    out
}

} // verus!
