use simple_gl::{parse_shader, CustomError};

#[test]
fn parse_two_sections_vertex_first() {
    let src = "#shader vertex\nvoid vmain() {}\n#shader fragment\nvoid fmain() {}\n";
    let out = parse_shader(src).unwrap();
    assert_eq!(out.vertex, "void vmain() {}\n");
    assert_eq!(out.fragment, "void fmain() {}\n");
}

#[test]
fn parse_two_sections_fragment_first() {
    let src = "#shader fragment\nvoid fmain() {}\n#shader vertex\nvoid vmain() {}\n";
    let out = parse_shader(src).unwrap();
    assert_eq!(out.vertex, "void vmain() {}\n");
    assert_eq!(out.fragment, "void fmain() {}\n");
}

#[test]
fn parse_multi_line_sections() {
    let src = "#shader vertex\nline a\nline b\n#shader fragment\nline c\nline d\n";
    let out = parse_shader(src).unwrap();
    assert_eq!(out.vertex, "line a\nline b\n");
    assert_eq!(out.fragment, "line c\nline d\n");
}

#[test]
fn parse_marker_as_substring_switches() {
    let src = "// #shader vertex marker\nv\n// #shader fragment marker\nf\n";
    let out = parse_shader(src).unwrap();
    assert_eq!(out.vertex, "v\n");
    assert_eq!(out.fragment, "f\n");
}

#[test]
fn parse_keeps_empty_lines() {
    let src = "#shader vertex\n\na\n#shader fragment\nb\n";
    let out = parse_shader(src).unwrap();
    assert_eq!(out.vertex, "\na\n");
    assert_eq!(out.fragment, "b\n");
}

#[test]
fn parse_trailing_line_without_newline() {
    let src = "#shader vertex\nv\n#shader fragment\nf";
    let out = parse_shader(src).unwrap();
    assert_eq!(out.vertex, "v\n");
    assert_eq!(out.fragment, "f\n");
}

#[test]
fn parse_empty_input_yields_empty_sections() {
    let out = parse_shader("").unwrap();
    assert_eq!(out.vertex, "");
    assert_eq!(out.fragment, "");
}

#[test]
fn parse_rejects_content_before_first_marker() {
    let src = "stray line\n#shader vertex\nv\n#shader fragment\nf\n";
    let e = parse_shader(src).unwrap_err();
    assert!(matches!(e, CustomError::MalformedShaderSource));
}

#[test]
fn parse_rejects_lone_orphan_line() {
    let e = parse_shader("just text").unwrap_err();
    assert!(matches!(e, CustomError::MalformedShaderSource));
}

#[test]
fn reparse_of_serialized_output_is_identity() {
    let src = "#shader fragment\nf1\nf2\n#shader vertex\nv1\n\nv2";
    let out = parse_shader(src).unwrap();
    let reserialized = format!(
        "#shader vertex\n{}#shader fragment\n{}",
        out.vertex, out.fragment
    );
    let again = parse_shader(&reserialized).unwrap();
    assert_eq!(again.vertex, out.vertex);
    assert_eq!(again.fragment, out.fragment);
}

#[test]
fn parse_treats_crlf_as_line_break() {
    let src = "#shader vertex\r\nv line\r\n#shader fragment\r\nf line\r\n";
    let out = simple_gl::parse_shader(src).unwrap();
    assert_eq!(out.vertex, "v line\n");
    assert_eq!(out.fragment, "f line\n");
}

#[test]
fn parse_keeps_interior_carriage_returns() {
    let src = "#shader vertex\na\rb\n#shader fragment\nc\n";
    let out = simple_gl::parse_shader(src).unwrap();
    assert_eq!(out.vertex, "a\rb\n");
    assert_eq!(out.fragment, "c\n");
}
