use indexer::intent::{extract_doc_summary, guess_summary};
use indexer::snippet::extract_relevant_snippet;

fn b(s: &str) -> Vec<u8> {
    s.as_bytes().to_vec()
}

fn lower(v: &[u8]) -> String {
    String::from_utf8_lossy(v).to_lowercase()
}

fn text(v: &[u8]) -> String {
    String::from_utf8_lossy(v).into_owned()
}

#[test]
fn detects_readme() {
    let sum = guess_summary(b"README.md", b"# Hello\n\nstuff", b"md");
    assert!(lower(&sum).contains("readme"));
}

#[test]
fn detects_rust_main() {
    let sum = guess_summary(b"src/main.rs", b"fn main(){println!(\"hi\");}", b"rust");
    assert!(lower(&sum).contains("entrypoint"));
}

#[test]
fn detects_test_file() {
    let sum = guess_summary(b"src/foo_test.rs", b"#[test]\nfn t(){}", b"rust");
    assert!(lower(&sum).contains("test"));
}

#[test]
fn extract_prefers_rust_docs() {
    let doc = extract_doc_summary(b"//! Cool module\nfn main(){}").unwrap();
    assert!(text(&doc).contains("Cool module"));
}

#[test]
fn extract_skips_fenced_code() {
    let md = b"Intro\n```rust\nfn main(){}\n```\n# Heading\n";
    let doc = extract_doc_summary(md).unwrap();
    assert_eq!(doc, b("Heading"));
}

#[test]
fn rust_doc_capture() {
    let s = b"//! Top module docs\n/// more\nfn main(){}\n";
    let snip = extract_relevant_snippet(s, b"rust");
    assert!(text(&snip).contains("Top module docs"));
    assert!(text(&snip).contains("more"));
}

#[test]
fn py_triple_quote() {
    let s = b"\n\"\"\"Module summary\nGoes here.\"\"\"\ndef f(): pass\n";
    let snip = extract_relevant_snippet(s, b"python");
    assert!(text(&snip).contains("Module summary"));
}

#[test]
fn js_block_doc() {
    let s = b"/** Hello */\nexport function x(){}\n";
    let snip = extract_relevant_snippet(s, b"ts");
    assert!(text(&snip).contains("Hello"));
    assert!(text(&snip).contains("export function"));
}

#[test]
fn fallback_head() {
    let s = b"line1\n\nline2\n";
    let snip = extract_relevant_snippet(s, b"txt");
    assert!(text(&snip).contains("line1"));
}

#[test]
fn summary_falls_back_to_first_line() {
    // no ladder case applies and there is no documentation: the first
    // nonempty line stands in as the summary
    let sum = guess_summary(b"notes/x.sql", b"\nab\n", b"sql");
    assert_eq!(sum, b("ab"));
}

#[test]
fn shebang_decides_language() {
    assert_eq!(indexer::util::lang_from_shebang(b"#!/usr/bin/env python3"), b("python"));
    assert_eq!(indexer::util::lang_from_shebang(b"#!/bin/bash"), b("sh"));
    assert_eq!(indexer::util::lang_from_shebang(b"plain text"), Vec::<u8>::new());
}

#[test]
fn noise_paths_by_first_component() {
    assert!(indexer::util::is_noise_path(b"target/debug/foo"));
    assert!(indexer::util::is_noise_path(b"node_modules/x/y.js"));
    assert!(!indexer::util::is_noise_path(b"src/target.rs"));
}
