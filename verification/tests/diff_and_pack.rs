use indexer::diff::diff_indexes;
use indexer::digests::{b64_encode, hex256, sha1_hex, to_hex};
use indexer::lex::{consume_balanced_block, find_balanced_block};
use indexer::merkle::chunk_and_merkle;
use indexer::pack::anchor_from_source;
use indexer::record::FileIntentEntry;
use base64::Engine;

fn b(s: &str) -> Vec<u8> {
    s.as_bytes().to_vec()
}

fn entry(path: &str, sha1: &str) -> FileIntentEntry {
    let mut e = FileIntentEntry::default();
    e.path = b(path);
    e.sha1 = b(sha1);
    e.lang = b("rust");
    e.role = b("lib");
    e
}

#[test]
fn one_to_one_rename_is_reported() {
    // file X at hash H1 disappears, file Y appears at H1: one rename, no
    // adds or removes for that hash
    let old = vec![entry("x.rs", "h1"), entry("same.rs", "h2")];
    let new = vec![entry("y.rs", "h1"), entry("same.rs", "h2")];
    let r = diff_indexes(&old, &new);
    assert_eq!(r.renamed.len(), 1);
    assert_eq!(r.renamed[0].from, b("x.rs"));
    assert_eq!(r.renamed[0].to, b("y.rs"));
    assert_eq!(r.added.len(), 0);
    assert_eq!(r.removed.len(), 0);
    assert_eq!(r.summary.unchanged, 1);
}

#[test]
fn ambiguous_hashes_are_adds_and_removes() {
    // two old paths with the same hash disappear: too ambiguous to rename
    let old = vec![entry("a.rs", "h1"), entry("b.rs", "h1")];
    let new = vec![entry("c.rs", "h1")];
    let r = diff_indexes(&old, &new);
    assert_eq!(r.renamed.len(), 0);
    assert_eq!(r.removed.len(), 2);
    assert_eq!(r.added.len(), 1);
}

#[test]
fn modified_by_hash_and_by_signals() {
    let old = vec![entry("a.rs", "h1"), entry("b.rs", "h2")];
    let mut new_a = entry("a.rs", "h9");
    new_a.size = 5;
    let mut new_b = entry("b.rs", "h2");
    new_b.tags = vec![b("core")];
    let new = vec![new_a, new_b];
    let r = diff_indexes(&old, &new);
    assert_eq!(r.modified.len(), 2);
    assert_eq!(r.summary.unchanged, 0);
    assert!(r.modified[0].path < r.modified[1].path);
}

#[test]
fn sha1_known_vector() {
    let d = sha1_hex(b"abc");
    assert_eq!(d, b("a9993e364706816aba3e25717850c26c9cd0d89d"));
}

#[test]
fn hex_matches_reference_encoder() {
    let data = [0u8, 15, 16, 255, 100];
    assert_eq!(to_hex(&data), hex::encode(data).into_bytes());
}

#[test]
fn sha256_known_vector() {
    let d = hex256(b"abc");
    assert_eq!(
        d,
        b("ba7816bf8f01cfea414140de5dae2223b00361a396177a9cb410ff61f20015ad")
    );
}

#[test]
fn merkle_root_is_deterministic_and_sensitive() {
    let data = vec![7u8; 100_000];
    let (chunks1, root1) = chunk_and_merkle(&data);
    let (_, root2) = chunk_and_merkle(&data);
    assert_eq!(root1, root2);
    assert!(chunks1.len() > 1);
    let mut changed = data.clone();
    changed[50_000] = 8;
    let (_, root3) = chunk_and_merkle(&changed);
    assert_ne!(root1, root3);
    // the empty input has the digest of nothing as its root
    let (none, empty_root) = chunk_and_merkle(&[]);
    assert!(none.is_empty());
    assert_eq!(empty_root, hex256(b""));
}

#[test]
fn balanced_scan_ignores_strings_and_comments() {
    let src = b"fn a() { let s = \"}\"; /* } */ // }\n let c = '}'; }";
    let end = consume_balanced_block(src, 7).unwrap();
    assert_eq!(end, src.len());
}

#[test]
fn raw_strings_close_at_their_weight() {
    let src = br##"fn a() { let s = r#"}"#; }"##;
    let (start, end) = find_balanced_block(src, b"fn", b"a").unwrap();
    assert_eq!(start, 0);
    assert_eq!(end, src.len());
}

#[test]
fn signature_only_declarations_are_skipped() {
    let src = b"trait T { fn a(x: u8) -> u8; }\n";
    assert!(anchor_from_source(src, b"fn", b"a", b"fn", b"priv").is_err());
}

#[test]
fn public_fn_anchor_has_exact_lines() {
    // one public function anchor for `a`, and one internal one for `b`
    let src = b"pub fn a(){}\nfn b(){}\n";
    let a = anchor_from_source(src, b"fn", b"a", b"fn", b"pub").unwrap();
    assert_eq!(a.start_line, 1);
    assert_eq!(a.end_line, 1);
    let bdecl = anchor_from_source(src, b"fn", b"b", b"fn", b"priv").unwrap();
    assert_eq!(bdecl.start_line, 2);
    assert_eq!(bdecl.end_line, 2);
}

#[test]
fn anchor_roundtrip_reproduces_slice_and_hash() {
    let src = b"fn gamma() { let x = \"{\"; x }\n";
    let a = anchor_from_source(src, b"fn", b"gamma", b"fn", b"priv").unwrap();
    // decoding the verbatim slice gives back the exact bytes
    let decoded = base64::engine::general_purpose::STANDARD
        .decode(&a.verbatim_b64)
        .unwrap();
    let expect_start = 0usize;
    assert_eq!(&src[expect_start..src.len() - 1], &decoded[..]);
    // re-hashing the decoded slice reproduces the recorded digest
    assert_eq!(hex256(&decoded), a.slice_sha256);
    // the encoding matches the library's own encoder
    assert_eq!(b64_encode(&decoded), a.verbatim_b64);
}

#[test]
fn scanning_same_bytes_twice_is_identical() {
    // the per-file primitives are pure: equal bytes give equal results
    let data = b"pub fn alpha() { 1 }\n";
    assert_eq!(sha1_hex(data), sha1_hex(data));
    let (c1, r1) = chunk_and_merkle(data);
    let (c2, r2) = chunk_and_merkle(data);
    assert_eq!(r1, r2);
    assert_eq!(c1.len(), c2.len());
}
