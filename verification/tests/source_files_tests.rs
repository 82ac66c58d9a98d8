use r_python::source_files::{has_rpy_extension, is_rpy_extension};

#[test]
fn rpy_extension_in_any_case_is_accepted() {
    assert!(has_rpy_extension("examples/fib.rpy"));
    assert!(has_rpy_extension("PROGRAM.RPY"));
    assert!(has_rpy_extension("a.b.RpY"));
}

#[test]
fn other_paths_are_refused() {
    assert!(!has_rpy_extension("main.py"));
    assert!(!has_rpy_extension("rpy"));
    assert!(!has_rpy_extension(".rpy"));
    assert!(!has_rpy_extension("dir.rpy/file"));
    assert!(!has_rpy_extension("file.rpyc"));
}

#[test]
fn extension_comparison_ignores_case() {
    assert!(is_rpy_extension(Some("rPy")));
    assert!(!is_rpy_extension(Some("rp")));
    assert!(!is_rpy_extension(None));
}
