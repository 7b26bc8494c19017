use sokutex::compiler::{collect_all_dependencies, Compiler};
use sokutex::vfs::Vfs;

fn project() -> Vfs {
    let mut vfs = Vfs::new();
    vfs.write_file(
        "main.tex",
        b"\\documentclass{article}\n\\include{A}\n\\include{B}\n\\begin{document}\nbody\n\\end{document}\n"
            .to_vec(),
    );
    vfs.write_file("A.tex", b"alpha".to_vec());
    vfs.write_file("B.tex", b"beta".to_vec());
    vfs
}

#[test]
fn observe_reports_change_only_when_content_changes() {
    let mut c = Compiler::new();
    let (old, changed) = c.observe("f.tex", &b"v1".to_vec());
    assert_eq!(old, 0);
    assert!(changed);
    let (_, changed2) = c.observe("f.tex", &b"v1".to_vec());
    assert!(!changed2);
    let (_, changed3) = c.observe("f.tex", &b"v1".to_vec());
    assert!(!changed3);
    let (_, changed4) = c.observe("f.tex", &b"v2".to_vec());
    assert!(changed4);
}

#[test]
fn collect_walks_transitively_and_survives_cycles() {
    let mut vfs = Vfs::new();
    vfs.write_file("main.tex", b"\\include{A}\\input{B}".to_vec());
    vfs.write_file("A.tex", b"\\input{C}".to_vec());
    vfs.write_file("B.tex", b"\\input{main}".to_vec());
    let deps = collect_all_dependencies("main.tex", &vfs);
    let views: Vec<&str> = deps.iter().map(|p| p.as_str()).collect();
    assert_eq!(views, vec!["A.tex", "C.tex", "B.tex", "main.tex"]);
}

#[test]
fn only_changed_unit_gets_scoped() {
    let mut vfs = project();
    let mut c = Compiler::new();
    // First pass: everything is newly observed, so the whole set is
    // affected and no directive is injected.
    let main = String::from_utf8(vfs.read_file("main.tex").unwrap()).unwrap();
    let (_, incremental, deltas) = c.optimize_latex(&main, false, false, &vfs);
    assert!(!incremental);
    assert_eq!(deltas.len(), 3);
    // Only B changes.
    vfs.write_file("B.tex", b"beta v2".to_vec());
    let (optimized, incremental, deltas) = c.optimize_latex(&main, false, false, &vfs);
    assert!(incremental);
    assert_eq!(deltas.len(), 1);
    assert_eq!(deltas[0].path, "B.tex");
    assert_ne!(deltas[0].old_hash, deltas[0].new_hash);
    assert!(optimized.contains("\\includeonly{B}\n\\begin{document}"));
    assert!(!optimized.contains("\\includeonly{A"));
}

#[test]
fn unchanged_project_is_not_scoped() {
    let vfs = project();
    let mut c = Compiler::new();
    let main = String::from_utf8(vfs.read_file("main.tex").unwrap()).unwrap();
    let _ = c.optimize_latex(&main, false, false, &vfs);
    let (optimized, incremental, deltas) = c.optimize_latex(&main, false, false, &vfs);
    assert!(!incremental);
    assert!(deltas.is_empty());
    assert_eq!(optimized, main);
}

#[test]
fn focus_mode_keeps_bibliography_unit() {
    let mut vfs = Vfs::new();
    vfs.write_file(
        "main.tex",
        b"\\include{A}\n\\include{B}\n\\include{C}\n\\begin{document}\n\\end{document}\n".to_vec(),
    );
    vfs.write_file("A.tex", b"alpha".to_vec());
    vfs.write_file("B.tex", b"\\bibliography{refs}".to_vec());
    vfs.write_file("C.tex", b"gamma".to_vec());
    let mut c = Compiler::new();
    c.active_file = Some("A.tex".to_string());
    let main = String::from_utf8(vfs.read_file("main.tex").unwrap()).unwrap();
    let (optimized, incremental, _) = c.optimize_latex(&main, false, true, &vfs);
    assert!(incremental);
    // Focus narrows to the active unit plus the bibliography-carrying unit.
    assert!(optimized.contains("\\includeonly{A,B}\n\\begin{document}"));
}

#[test]
fn active_unit_is_always_included_outside_focus() {
    let mut vfs = project();
    let mut c = Compiler::new();
    let main = String::from_utf8(vfs.read_file("main.tex").unwrap()).unwrap();
    let _ = c.optimize_latex(&main, false, false, &vfs);
    vfs.write_file("B.tex", b"beta v2".to_vec());
    c.active_file = Some("A.tex".to_string());
    let (optimized, incremental, _) = c.optimize_latex(&main, false, false, &vfs);
    // Both B (changed) and A (actively edited) are in scope; that covers
    // everything, so no directive is injected.
    assert!(!incremental);
    assert!(!optimized.contains("\\includeonly"));
}

#[test]
fn draft_toggle_restores_source_exactly() {
    let c = Compiler::new();
    let original = "\\documentclass{article}\n\\begin{document}\nHello\n\\end{document}\n";
    let on = c.apply_draft_mode(original, true);
    assert!(on.contains("\\documentclass[draft]{article}"));
    assert!(on.contains("\\begin{document}\n\\textbf{--- DRAFT MODE ACTIVE ---}\n"));
    let off = c.apply_draft_mode(&on, false);
    assert_eq!(off, original);
}

#[test]
fn draft_toggle_restores_existing_options_exactly() {
    let c = Compiler::new();
    let original = "\\documentclass[12pt,a4paper]{report}\n\\begin{document}\nx\n\\end{document}\n";
    let on = c.apply_draft_mode(original, true);
    assert!(on.contains("\\documentclass[draft,12pt,a4paper]{report}"));
    let off = c.apply_draft_mode(&on, false);
    assert_eq!(off, original);
}

#[test]
fn draft_on_is_idempotent_when_already_present() {
    let c = Compiler::new();
    let original = "\\documentclass[draft]{article}\n\\begin{document}\nx";
    let on = c.apply_draft_mode(original, true);
    // The class options already mention draft; only the marker is added.
    assert!(on.starts_with("\\documentclass[draft]{article}"));
    let again = c.apply_draft_mode(&on, true);
    assert_eq!(again, on);
}
