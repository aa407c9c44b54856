use indexer::helpers::{
    dedup_preserve_order, infer_role, python_module_id, rust_module_id, skim_js_ts, skim_python,
    skim_rust,
};
use indexer::record::Role;
use indexer::util::{
    count_loc, ext_to_lang, humanize_bytes, infer_tags, is_probably_binary, prefixed_filename,
    slugify,
};

fn b(s: &str) -> Vec<u8> {
    s.as_bytes().to_vec()
}

#[test]
fn roles_basic() {
    assert_eq!(infer_role(b"src/main.rs", b"rust", b"fn main(){}"), Role::Bin);
    assert_eq!(infer_role(b"src/lib.rs", b"rust", b""), Role::Lib);
    assert_eq!(infer_role(b"tests/foo.rs", b"rust", b"#[test] fn t(){}"), Role::Test);
    assert_eq!(infer_role(b"docs/README.md", b"md", b""), Role::Doc);
    assert_eq!(infer_role(b".github/workflows/ci.yml", b"yaml", b""), Role::Config);
}

#[test]
fn rust_module_paths() {
    assert_eq!(rust_module_id(b"src/lib.rs"), b("crate"));
    assert_eq!(rust_module_id(b"src/main.rs"), b("bin"));
    assert_eq!(rust_module_id(b"src/bin/foo.rs"), b("bin::foo"));
    assert_eq!(rust_module_id(b"src/a/b.rs"), b("a::b"));
    assert_eq!(rust_module_id(b"src/a/mod.rs"), b("a"));
}

#[test]
fn python_mods() {
    assert_eq!(python_module_id(b"a/b/c.py"), b("a.b.c"));
}

#[test]
fn skim_rust_symbols() {
    let (im, ex) = skim_rust(b"use crate::foo::Bar;\npub struct X {}\npub fn go() {}\n");
    assert!(im.iter().any(|s| {
        String::from_utf8(s.clone()).unwrap().contains("crate::foo::Bar")
    }));
    assert!(ex.contains(&b("X")));
    assert!(ex.contains(&b("go")));
}

#[test]
fn skim_python_symbols() {
    let (im, ex) = skim_python(
        b"from a.b import c, d as e\nimport x, y as z\ndef f(): pass\nclass K: pass\n",
    );
    assert!(im.contains(&b("a.b.c")) && im.contains(&b("a.b.d")));
    assert!(im.contains(&b("x")));
    assert!(ex.contains(&b("f")) && ex.contains(&b("K")));
}

#[test]
fn skim_ts_symbols() {
    let (im, ex) = skim_js_ts(
        b"import { a,b } from \"pkg\";\nexport class Foo {}\nexport const bar = 1;\n",
    );
    assert!(im.contains(&b("pkg")));
    assert!(ex.contains(&b("Foo")) && ex.contains(&b("bar")));
}

#[test]
fn dedup_preserves_first() {
    let out = dedup_preserve_order(vec![b("a"), b("b"), b("a")]);
    assert_eq!(out, vec![b("a"), b("b")]);
}

#[test]
fn slug_basic() {
    assert_eq!(slugify(b"Indexer"), b("indexer"));
    assert_eq!(slugify(b"My Project"), b("my_project"));
    assert_eq!(slugify(b"..weird///name!!"), b("weird_name"));
}

#[test]
fn prefixed_name() {
    let f = prefixed_filename(b"indexer", b"PROJECT_TREE", b"md");
    assert!(f.ends_with(b"_PROJECT_TREE.md"));
    assert!(f.len() > "_PROJECT_TREE.md".len());
}

#[test]
fn bytes_humanize() {
    assert_eq!(humanize_bytes(999), b("999 B"));
    assert_eq!(humanize_bytes(1500), b("2 KB"));
}

#[test]
fn loc_counts() {
    let s = b"a\n\nb\n  \n c ";
    assert_eq!(count_loc(s), 3);
}

#[test]
fn lang_map() {
    assert_eq!(ext_to_lang(b"src/main.rs"), b("rust"));
    assert_eq!(ext_to_lang(b"README.md"), b("md"));
    assert_eq!(ext_to_lang(b"script.sh"), b("sh"));
    assert_eq!(ext_to_lang(b"foo.unknown"), b("txt"));
}

#[test]
fn tags_have_lang_and_struct() {
    let tags = infer_tags(b"src/tree_view.rs", b"rs");
    assert!(tags.contains(&b("rust")));
    assert!(tags.iter().any(|t| t.starts_with(b"dir:")));
    assert!(tags.iter().any(|t| t.starts_with(b"ext:")));
}

#[test]
fn binary_detector() {
    let txt = b"hello world";
    let bin = b"abc\0def\0ghi";
    assert!(!is_probably_binary(txt));
    assert!(is_probably_binary(bin));
}
