use spallcomp::errs::ProjectCompilationError;
use spallcomp::framework_runtime::{
    add_dependencies_for_file, build_framework_runtime, bundle_compiled_files, parse_framework_file_dependencies,
    remove_require_statement,
};

fn file(name: &str, content: &str) -> (String, String) {
    (name.to_string(), content.to_string())
}

#[test]
fn dependencies_are_read_from_first_line() {
    assert_eq!(
        parse_framework_file_dependencies("requires(a.js, b.js);\nclass X {}"),
        vec!["a.js".to_string(), "b.js".to_string()]
    );
    assert_eq!(parse_framework_file_dependencies("requires(a.js);\r\nx"), vec!["a.js".to_string()]);
    assert!(parse_framework_file_dependencies("class X {}").is_empty());
}

#[test]
fn requires_line_is_removed() {
    assert_eq!(remove_require_statement("requires(a.js);\nline1\nline2\n"), "line1\nline2");
    assert_eq!(remove_require_statement("plain\ntext"), "plain\ntext");
}

#[test]
fn runtime_puts_dependencies_first_once() {
    let files = vec![
        file("app.js", "requires(base.js, util.js);\nAPP"),
        file("util.js", "requires(base.js);\nUTIL"),
        file("base.js", "BASE"),
    ];
    assert_eq!(build_framework_runtime(&files).unwrap(), "BASE\nUTIL\nAPP");
}

#[test]
fn missing_dependency_is_reported() {
    let files = vec![file("app.js", "requires(gone.js);\nAPP")];
    assert_eq!(
        build_framework_runtime(&files).unwrap_err(),
        ProjectCompilationError::MissingFrameworkFile { name: "gone.js".to_string() }
    );
}

#[test]
fn circular_dependencies_are_reported() {
    let files = vec![file("a.js", "requires(b.js);\nA"), file("b.js", "requires(a.js);\nB")];
    assert!(matches!(
        build_framework_runtime(&files).unwrap_err(),
        ProjectCompilationError::FrameworkDependencyCycle { .. }
    ));
}

#[test]
fn dependencies_are_accumulated_in_order() {
    let files = vec![file("a.js", "requires(b.js);\nA"), file("b.js", "B")];
    let mut acc = vec![];
    add_dependencies_for_file(&vec!["a.js".to_string()], &files, &mut acc, 2).unwrap();
    assert_eq!(acc, vec!["b.js".to_string(), "a.js".to_string()]);
}

#[test]
fn bundle_joins_with_semicolons() {
    assert_eq!(bundle_compiled_files(&vec!["a".to_string(), "b".to_string()]), "a;\nb");
    assert_eq!(bundle_compiled_files(&vec![]), "");
}
