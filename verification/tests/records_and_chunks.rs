use indexer::chunker::{pack_parts, split_entry_into_parts};
use indexer::estimate_tokens_fallback;
use indexer::record::{FileIntentEntry, Role};

fn b(s: &str) -> Vec<u8> {
    s.as_bytes().to_vec()
}

#[test]
fn token_estimator_floor() {
    assert!(estimate_tokens_fallback(b"") >= 12);
    assert!(estimate_tokens_fallback(b"abcd") >= 12);
    assert!(estimate_tokens_fallback("x".repeat(400).as_bytes()) >= 100);
}

#[test]
fn split_small_is_single_part() {
    let mut e = FileIntentEntry::default();
    e.path = b("src/main.rs");
    e.lang = b("rs");
    e.sha1 = b("deadbeef");
    e.size = 2 * 1024;
    e.last_modified = b("1234567890");
    e.summary = Some(b("entrypoint"));
    e.snippet = b("fn main() {}");
    let parts = split_entry_into_parts(&e, 800, 32_000);
    assert_eq!(parts.len(), 1);
    assert_eq!(parts[0].part_idx, 1);
    assert_eq!(parts[0].part_total, 1);
    assert!(parts[0].summary.is_some());
}

#[test]
fn split_large_makes_multiple_parts() {
    let mut body = String::new();
    for _ in 0..5000 {
        body.push_str("let x = 1;\n");
    }
    let mut e = FileIntentEntry::default();
    e.path = b("src/lib.rs");
    e.lang = b("rust");
    e.sha1 = b("cafebabe");
    e.size = 120 * 1024;
    e.last_modified = b("1234567890");
    e.summary = Some(b("lib"));
    e.snippet = body.into_bytes();
    let parts = split_entry_into_parts(&e, 800, 32_000);
    assert!(parts.len() > 1);
    assert!(parts[0].summary.is_some());
    assert!(parts.iter().skip(1).all(|p| p.summary.is_none()));
    let n = parts.len();
    assert!(parts.iter().all(|p| p.part_total == n));
}

#[test]
fn default_is_sane() {
    let f = FileIntentEntry::default();
    assert_eq!(f.role_enum(), Role::Other);
    assert_eq!(f.token_estimate, 0);
    assert!(f.tags.is_empty());
}

#[test]
fn stable_id_uses_path_and_sha_prefix() {
    let mut f = FileIntentEntry::default();
    f.path = b("src/main.rs");
    f.sha1 = b("deadbeefcafebabef00d");
    let id = f.stable_id();
    assert!(id.starts_with(b"F:src/main.rs:deadbeef"));
}

#[test]
fn backfill_role_from_tags_and_path() {
    let mut f = FileIntentEntry::default();
    f.path = b("src/main.rs");
    f.backfill_role();
    assert_eq!(f.role_enum(), Role::Bin);

    let mut g = FileIntentEntry::default();
    g.path = b("docs/guide.md");
    g.tags = vec![b("docs")];
    g.backfill_role();
    assert_eq!(g.role_enum(), Role::Doc);
}

#[test]
fn line_metrics_count() {
    let mut f = FileIntentEntry::default();
    f.snippet = b("a\n\n b \n");
    f.compute_line_metrics();
    assert_eq!(f.lines_total, 3);
    assert_eq!(f.lines_nonblank, 2);
}

#[test]
fn ensure_token_estimate_sets_min() {
    let mut f = FileIntentEntry::default();
    f.snippet = b("abcd");
    f.ensure_token_estimate();
    assert!(f.token_estimate >= 12);
}

#[test]
fn split_of_three_parts_backfills_total() {
    // 2400 short lines estimate to 2400 tokens; at 800 per part the snippet
    // splits into exactly three parts, each within the target.
    let mut body = String::new();
    for _ in 0..2400 {
        body.push_str("abc\n");
    }
    let mut e = FileIntentEntry::default();
    e.path = b("src/big.rs");
    e.lang = b("rust");
    e.snippet = body.into_bytes();
    let parts = split_entry_into_parts(&e, 800, 1_000_000);
    assert_eq!(parts.len(), 3);
    assert!(parts.iter().all(|p| p.part_total == 3));
    for (i, p) in parts.iter().enumerate() {
        assert_eq!(p.part_idx, i + 1);
        assert!(p.token_estimate <= 800);
    }
}

#[test]
fn packer_respects_token_budget() {
    let mut e = FileIntentEntry::default();
    e.path = b("a.rs");
    e.lang = b("rust");
    e.snippet = b("x".repeat(100).as_str());
    let mut parts = split_entry_into_parts(&e, 800, 32_000);
    let mut f2 = FileIntentEntry::default();
    f2.path = b("b.rs");
    f2.lang = b("rust");
    f2.snippet = b("y".repeat(100).as_str());
    parts.extend(split_entry_into_parts(&f2, 800, 32_000));
    let chunks = pack_parts(parts, 40, 120);
    // each snippet alone estimates to 25 tokens; both exceed the budget of 40
    // together, so the packer must keep them apart
    assert_eq!(chunks.len(), 2);
    for c in &chunks {
        let total: usize = c.parts.iter().map(|p| p.token_estimate.max(1)).sum();
        assert!(total <= 40 || c.parts.len() == 1);
    }
}

#[test]
fn split_rejoin_matches_snippet() {
    // concatenating the part bodies reproduces the snippet byte for byte,
    // trailing newline and carriage returns included
    let mut body = String::new();
    for i in 0..900 {
        body.push_str(&format!("line number {}\r\n", i));
    }
    let mut e = FileIntentEntry::default();
    e.path = b("src/join.rs");
    e.snippet = body.clone().into_bytes();
    let parts = split_entry_into_parts(&e, 800, 1_000_000);
    assert!(parts.len() > 1);
    let mut joined = Vec::new();
    for p in &parts {
        joined.extend_from_slice(&p.body);
    }
    assert_eq!(joined, body.into_bytes());
}

#[test]
fn rendered_chunk_is_self_describing() {
    let mut e = FileIntentEntry::default();
    e.path = b("src/a.rs");
    e.lang = b("rust");
    e.sha1 = b("abcd");
    e.last_modified = b("7");
    e.summary = Some(b("tiny"));
    e.snippet = b("fn a() {}");
    let parts = split_entry_into_parts(&e, 800, 32_000);
    let text = indexer::chunker::render_chunk(1, b"1700000000", &parts);
    let out = String::from_utf8(text).unwrap();
    assert!(out.starts_with("# Paste Chunk 1\n\n> generated: 1700000000\n"));
    assert!(out.contains("> files: 1 | parts: 1 | ~tokens: 12"));
    assert!(out.contains("## `src/a.rs` [rust]"));
    assert!(out.contains("**Summary:** tiny"));
    assert!(out.contains("```rust\nfn a() {}\n```"));
}

#[test]
fn fence_labels_fold_aliases() {
    assert_eq!(indexer::chunker::fence_lang(b"rs"), b("rust"));
    assert_eq!(indexer::chunker::fence_lang(b"YAML"), b("yaml"));
    assert_eq!(indexer::chunker::fence_lang(b""), Vec::<u8>::new());
    assert_eq!(indexer::chunker::fence_lang(b"ada"), b("ada"));
}

#[test]
fn token_strings_are_tightened() {
    let r = indexer::helpers::normalize_token_string(b"fn f < T > ( x : : y )");
    assert_eq!(r, b("fn f<T>( x::y )"));
    let q = indexer::helpers::normalize_token_string(b"a , b ;");
    assert_eq!(q, b("a, b;"));
}
