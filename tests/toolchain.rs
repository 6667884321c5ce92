use bfc::bfir::Position;
use bfc::source_map::locate;
use bfc::diagnostics::{Info, Level};
use bfc::toolchain::{executable_name, link_arguments, strip_arguments};

#[test]
fn executable_name_bf() {
    assert_eq!(executable_name("foo.bf"), "foo");
}

#[test]
fn executable_name_b() {
    assert_eq!(executable_name("foo_bar.b"), "foo_bar");
}

#[test]
fn executable_name_relative_path() {
    assert_eq!(executable_name("bar/baz.bf"), "baz");
}

#[test]
fn executable_name_ignores_trailing_separators() {
    assert_eq!(executable_name("foo/"), "foo");
    assert_eq!(executable_name("dir/prog.bf//"), "prog");
    assert_eq!(executable_name("a/b/."), "b");
    assert_eq!(executable_name("./x.bf"), "x");
}

#[test]
fn executable_name_drops_only_last_extension() {
    assert_eq!(executable_name("a.b.c"), "a.b");
    assert_eq!(executable_name(".rc"), "");
}

#[test]
fn executable_name_keeps_inner_dots() {
    assert_eq!(executable_name("a/b.c/x.y.bf"), "x.y");
    assert_eq!(executable_name("plain"), "plain");
}

#[test]
fn link_arguments_with_target() {
    let args = link_arguments("o.o", "out", &Some("x86_64".to_string()));
    assert_eq!(args, vec!["o.o", "-target", "x86_64", "-o", "out"]);
    let args = link_arguments("o.o", "out", &None);
    assert_eq!(args, vec!["o.o", "-o", "out"]);
}

#[test]
fn strip_arguments_name_executable() {
    assert_eq!(strip_arguments("out"), vec!["-s", "out"]);
}

#[test]
fn info_levels() {
    let w = Info::warn("careful".to_string());
    assert_eq!(w.level, Level::Warning);
    assert_eq!(w.message, "careful");
    assert!(w.filename.is_none() && w.position.is_none());
    let e = Info::error("broken".to_string());
    assert_eq!(e.level, Level::Error);
    assert!(e.source.is_none() && e.line_col.is_none());
}

#[test]
fn info_parts_show_line_and_caret() {
    let info = Info {
        level: Level::Warning,
        filename: Some("prog.bf".to_string()),
        message: "odd".to_string(),
        position: Some(Position { start: 12, end: 14 }),
        source: Some("ab+[]".to_string()),
        line_col: Some((9, 2)),
    };
    let parts = info.parts();
    assert_eq!(parts.file_text, "prog.bf:10:3");
    assert_eq!(parts.level_text, " warning: ");
    assert_eq!(parts.message, "odd");
    assert_eq!(parts.context_line, "ab+[]");
    assert_eq!(parts.caret_line, "\n  ^~~");
}

#[test]
fn info_parts_without_position() {
    let parts = Info::error("bad".to_string()).parts();
    assert_eq!(parts.file_text, "");
    assert_eq!(parts.level_text, " error: ");
    assert_eq!(parts.caret_line, "");
}

#[test]
fn locate_finds_line_and_column() {
    let src = b"++\n+[\n-]".to_vec();
    let span = locate(&src, 4).expect("inside the source");
    assert_eq!((span.line, span.column, span.start, span.end), (1, 1, 3, 6));
    let last = locate(&src, 7).expect("inside the source");
    assert_eq!((last.line, last.column, last.start, last.end), (2, 1, 6, 8));
    assert!(locate(&src, 8).is_none());
}
