use sokutex::dependencies::{child_paths, scan_outline, DependencyNode, DependencyScanner};
use sokutex::vfs::Vfs;

fn node_count(n: &DependencyNode) -> usize {
    1 + n.children.iter().map(node_count).sum::<usize>()
}

#[test]
fn vfs_read_back_and_overwrite() {
    let mut vfs = Vfs::new();
    assert!(vfs.read_file("a.tex").is_none());
    vfs.write_file("a.tex", b"one".to_vec());
    assert_eq!(vfs.read_file("a.tex").unwrap(), b"one".to_vec());
    vfs.write_file("a.tex", b"two".to_vec());
    assert_eq!(vfs.read_file("a.tex").unwrap(), b"two".to_vec());
}

#[test]
fn vfs_snapshot_lists_each_path_once() {
    let mut vfs = Vfs::new();
    vfs.write_file("a.tex", b"1".to_vec());
    vfs.write_file("b.tex", b"2".to_vec());
    vfs.write_file("a.tex", b"3".to_vec());
    let mut all = vfs.get_all_files();
    all.sort_by(|x, y| x.0.cmp(&y.0));
    assert_eq!(all.len(), 2);
    assert_eq!(all[0], ("a.tex".to_string(), b"3".to_vec()));
    assert_eq!(all[1], ("b.tex".to_string(), b"2".to_vec()));
}

#[test]
fn child_paths_normalize_extensions() {
    let paths = child_paths(
        "\\input{sections/intro}\\include{ch1.tex}\\bibliography{refs, more.bib}\\usepackage{geometry}",
    );
    let views: Vec<&str> = paths.iter().map(|p| p.as_str()).collect();
    assert_eq!(
        views,
        vec!["sections/intro.tex", "ch1.tex", "refs.bib", "more.bib", "geometry.sty"]
    );
}

#[test]
fn child_paths_skip_empty_pieces_and_unclosed_commands() {
    let paths = child_paths("\\input{ , a }\\include{b");
    let views: Vec<&str> = paths.iter().map(|p| p.as_str()).collect();
    assert_eq!(views, vec!["a.tex"]);
}

#[test]
fn outline_levels_and_line_numbers() {
    let items = scan_outline(
        "\\section{One}\n text\n  \\subsection{Two}\n\\part{P}\n\\chapter{C}\n\\section{broken\n",
        "main.tex",
    );
    assert_eq!(items.len(), 4);
    assert_eq!(items[0].title, "One");
    assert_eq!(items[0].level, 2);
    assert_eq!(items[0].line, 1);
    assert_eq!(items[0].file_name, "main.tex");
    assert_eq!(items[1].title, "Two");
    assert_eq!(items[1].level, 3);
    assert_eq!(items[1].line, 3);
    assert_eq!(items[2].title, "P");
    assert_eq!(items[2].level, 0);
    assert_eq!(items[2].line, 4);
    assert_eq!(items[3].title, "C");
    assert_eq!(items[3].level, 1);
    assert_eq!(items[3].line, 5);
}

#[test]
fn acyclic_scan_has_one_node_per_reachable_file() {
    let mut vfs = Vfs::new();
    vfs.write_file(
        "main.tex",
        b"\\input{sections/intro}\n\\include{sections/chapter1}\n".to_vec(),
    );
    vfs.write_file("sections/intro.tex", b"\\section{Introduction}".to_vec());
    vfs.write_file(
        "sections/chapter1.tex",
        b"\\input{sections/details}\n".to_vec(),
    );
    vfs.write_file("sections/details.tex", b"Detail text".to_vec());
    let tree = DependencyScanner::scan("main.tex", &vfs);
    assert_eq!(tree.name, "main.tex");
    assert_eq!(node_count(&tree), 4);
    assert_eq!(tree.children.len(), 2);
    assert_eq!(tree.children[0].name, "sections/intro.tex");
    assert_eq!(tree.children[1].name, "sections/chapter1.tex");
    assert_eq!(tree.children[1].children[0].name, "sections/details.tex");
}

#[test]
fn cyclic_includes_still_terminate_with_a_finite_tree() {
    let mut vfs = Vfs::new();
    vfs.write_file("a.tex", b"\\input{b}".to_vec());
    vfs.write_file("b.tex", b"\\input{a}".to_vec());
    let tree = DependencyScanner::scan("a.tex", &vfs);
    assert_eq!(tree.name, "a.tex");
    assert_eq!(tree.children.len(), 1);
    assert_eq!(tree.children[0].name, "b.tex");
    // The revisited root is emitted as a childless leaf.
    assert_eq!(tree.children[0].children.len(), 1);
    assert_eq!(tree.children[0].children[0].name, "a.tex");
    assert!(tree.children[0].children[0].children.is_empty());
    assert_eq!(node_count(&tree), 3);
}

#[test]
fn missing_file_scans_to_a_leaf() {
    let vfs = Vfs::new();
    let tree = DependencyScanner::scan("ghost.tex", &vfs);
    assert_eq!(tree.name, "ghost.tex");
    assert!(tree.children.is_empty());
    assert!(tree.outline.is_empty());
}
