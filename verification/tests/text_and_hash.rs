use sokutex::hashing::{content_hash, source_key};
use sokutex::text::{
    contains_str, dec_str, ends_with_str, ensure_suffix, find_from, join_with, split_lines,
    split_on, str_eq, trim_str,
};

#[test]
fn find_first_occurrence() {
    assert_eq!(find_from("abcabc", "bc", 0), Some(1));
    assert_eq!(find_from("abcabc", "bc", 2), Some(4));
    assert_eq!(find_from("abcabc", "bd", 0), None);
    assert_eq!(find_from("abc", "", 1), Some(1));
    assert_eq!(find_from("", "x", 0), None);
}

#[test]
fn contains_and_ends_with() {
    assert!(contains_str("hello world", "lo w"));
    assert!(!contains_str("hello", "world"));
    assert!(ends_with_str("chapter.tex", ".tex"));
    assert!(!ends_with_str("chapter.bib", ".tex"));
    assert!(str_eq("same", "same"));
    assert!(!str_eq("same", "sane"));
}

#[test]
fn trim_removes_surrounding_whitespace() {
    assert_eq!(trim_str("  spaced\t"), "spaced");
    assert_eq!(trim_str("\r\n"), "");
    assert_eq!(trim_str("x"), "x");
    assert_eq!(trim_str(""), "");
}

#[test]
fn split_and_join() {
    let parts = split_on("a, b,,c", ',');
    let views: Vec<&str> = parts.iter().map(|p| p.as_str()).collect();
    assert_eq!(views, vec!["a", " b", "", "c"]);
    let joined = join_with(&parts, ",");
    assert_eq!(joined, "a, b,,c");
}

#[test]
fn lines_match_std_semantics() {
    let lines = split_lines("a\r\nb\n\nc");
    let views: Vec<&str> = lines.iter().map(|p| p.as_str()).collect();
    assert_eq!(views, vec!["a", "b", "", "c"]);
    let trailing = split_lines("x\n");
    assert_eq!(trailing.len(), 1);
    assert_eq!(trailing[0], "x");
    assert_eq!(split_lines("").len(), 0);
}

#[test]
fn decimal_rendering() {
    assert_eq!(dec_str(0), "0");
    assert_eq!(dec_str(7), "7");
    assert_eq!(dec_str(9200), "9200");
    assert_eq!(dec_str(123456789), "123456789");
}

#[test]
fn suffix_added_only_when_absent() {
    assert_eq!(ensure_suffix("intro", ".tex"), "intro.tex");
    assert_eq!(ensure_suffix("intro.tex", ".tex"), "intro.tex");
    assert_eq!(ensure_suffix("refs", ".bib"), "refs.bib");
}

#[test]
fn output_bytes_are_utf8_encoded_text() {
    // The backend's output runs through the UTF-8 encoding wrapper; a
    // non-ASCII source line must come back as its UTF-8 bytes.
    let out = sokutex::compiler::compile_internal("héllo");
    let needle = "BT /F1 10 Td (héllo) Tj ET".as_bytes();
    assert!(out.windows(needle.len()).any(|w| w == needle));
}

#[test]
fn invalid_bytes_decode_to_replacement_leaves() {
    // The scanner decodes contents through the lossy wrapper: an invalid
    // byte cannot hide a dependency command around it.
    let mut vfs = sokutex::vfs::Vfs::new();
    let mut content = b"\\input{a}".to_vec();
    content.push(0xff);
    content.extend_from_slice(b"\\input{b}");
    vfs.write_file("root.tex", content);
    let tree = sokutex::dependencies::DependencyScanner::scan("root.tex", &vfs);
    let names: Vec<&str> = tree.children.iter().map(|c| c.name.as_str()).collect();
    assert_eq!(names, vec!["a.tex", "b.tex"]);
}

#[test]
fn content_hash_matches_reference_values() {
    // 64-bit FNV-1a reference values.
    assert_eq!(content_hash(&Vec::new()), 0xcbf29ce484222325);
    assert_eq!(content_hash(&b"a".to_vec()), 0xaf63dc4c8601ec8c);
    assert_eq!(content_hash(&b"a".to_vec()), content_hash(&b"a".to_vec()));
    assert_ne!(content_hash(&b"a".to_vec()), content_hash(&b"b".to_vec()));
}

#[test]
fn source_key_separates_backends() {
    let a = source_key("same source", 1);
    let b = source_key("same source", 2);
    let c = source_key("other source", 1);
    assert_ne!(a, b);
    assert_ne!(a, c);
    assert_eq!(a, source_key("same source", 1));
}
