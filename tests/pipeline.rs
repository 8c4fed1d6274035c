use scoped_css::assemble::{assemble, build_format, fill_slots};
use scoped_css::scope::rewrite_scope;
use scoped_css::template::scan;
use scoped_css::{
    generate_class_name, parse_literal_to_string, process_css_with_lightning, style, CompileError,
};

fn vals(v: &[&str]) -> Vec<String> {
    v.iter().map(|s| s.to_string()).collect()
}

fn is_identifier(id: &str) -> bool {
    id.len() == 12
        && id.starts_with("css-")
        && id[4..].chars().all(|c| c.is_ascii_digit() || ('a'..='f').contains(&c))
}

#[test]
fn identifier_of_known_digests() {
    // SHA-256 of "" starts e3b0c442, of "abc" starts ba7816bf.
    assert_eq!(generate_class_name(""), "css-e3b0c442");
    assert_eq!(generate_class_name("abc"), "css-ba7816bf");
}

#[test]
fn identifier_is_deterministic() {
    let c = "& { color: red; }";
    assert_eq!(generate_class_name(c), generate_class_name(c));
}

#[test]
fn identifier_is_sensitive_to_one_character() {
    let pairs = [
        ("& { color: red; }", "& { color: rod; }"),
        ("& { margin: 1px; }", "& { margin: 2px; }"),
        ("a", "b"),
        ("& {}", "& {} "),
    ];
    for (a, b) in pairs {
        assert_ne!(generate_class_name(a), generate_class_name(b));
    }
}

#[test]
fn plain_template_scenario() {
    let (id, css) = style("& { color: red; }", &vals(&[]), true).unwrap();
    assert!(is_identifier(&id));
    assert!(css.contains(&format!(".{}{{color:red}}", id)));
    assert!(!css.contains('&'));
    assert_eq!(id, generate_class_name("& { color: red; }"));
}

#[test]
fn resolved_value_scenario() {
    let (id1, _) = style("& { color: red; }", &vals(&[]), false).unwrap();
    let (id2, css) = style("& { background: [[bg]]; }", &vals(&["#4ecdc4"]), false).unwrap();
    assert!(is_identifier(&id2));
    assert_ne!(id1, id2);
    assert!(css.contains("4ecdc4"));
    assert!(css.contains(&format!(".{}", id2)));
    assert_eq!(id2, generate_class_name("& { background: #4ecdc4; }"));
}

#[test]
fn unclosed_placeholder_fails() {
    let r = style("& { color: [[red; }", &vals(&[]), false);
    assert!(matches!(r, Err(CompileError::UnclosedPlaceholder)));
    let r = style("& { color: [[a]]; } [[", &vals(&["red"]), false);
    assert!(matches!(r, Err(CompileError::UnclosedPlaceholder)));
    assert!(matches!(scan("x [[ y ]"), Err(CompileError::UnclosedPlaceholder)));
}

#[test]
fn value_count_mismatch_fails() {
    let r = style("& { color: [[a]]; }", &vals(&[]), false);
    assert!(matches!(r, Err(CompileError::UnresolvedPlaceholder)));
    let r = style("& { color: red; }", &vals(&["x"]), false);
    assert!(matches!(r, Err(CompileError::UnresolvedPlaceholder)));
}

#[test]
fn identical_calls_give_identical_identifiers() {
    let a = style("& { padding: [[p]]; }", &vals(&["4px"]), false).unwrap();
    let b = style("& { padding: [[p]]; }", &vals(&["4px"]), false).unwrap();
    assert_eq!(a.0, b.0);
    assert_eq!(a.1, b.1);
}

#[test]
fn media_query_is_rewritten_too() {
    let t = "@media (max-width: [[bp]]px) { & { font-size: 14px; } }";
    let (id, css) = style(t, &vals(&["768"]), false).unwrap();
    assert!(css.contains("@media"));
    assert!(css.contains("768px"));
    assert!(css.contains(&format!(".{}", id)));
    assert!(!css.contains('&'));
    assert_eq!(id, generate_class_name("@media (max-width: 768px) { & { font-size: 14px; } }"));
}

#[test]
fn scan_splits_chunks_and_spans() {
    let s = scan("a[[x]]b[[ y ]]").unwrap();
    assert_eq!(s.chunks, vec!["a".to_string(), "b".to_string(), "".to_string()]);
    assert_eq!(s.spans.len(), 2);
    assert_eq!((s.spans[0].start, s.spans[0].end), (1, 6));
    assert_eq!(s.spans[0].expr, "x");
    assert_eq!((s.spans[1].start, s.spans[1].end), (7, 14));
    assert_eq!(s.spans[1].expr, " y ");
}

#[test]
fn scan_takes_the_first_open_marker() {
    let s = scan("a[[[x]]]").unwrap();
    assert_eq!(s.chunks, vec!["a".to_string(), "]".to_string()]);
    assert_eq!(s.spans[0].expr, "[x");
}

#[test]
fn braces_survive_assembly() {
    assert_eq!(build_format(&vals(&["a { b }", "}"])), "a {{ b }}{}}}");
    assert_eq!(fill_slots("a{{b}}{}", &vals(&["V"])), Some("a{b}V".to_string()));
    assert_eq!(fill_slots("a{b", &vals(&[])), None);
    assert_eq!(fill_slots("{}", &vals(&[])), None);
    let s = scan("& { x: [[v]]; } @m { & {} }").unwrap();
    let out = assemble(&s, &vals(&["{1}"])).unwrap();
    assert_eq!(out, "& { x: {1}; } @m { & {} }");
}

#[test]
fn no_placeholder_markers_left() {
    let s = scan("[[a]] x [[b]] y").unwrap();
    let out = assemble(&s, &vals(&["1", "2"])).unwrap();
    assert_eq!(out, "1 x 2 y");
    assert!(!out.contains("[["));
    assert!(!out.contains("]]"));
}

#[test]
fn scope_rewrite_replaces_every_marker() {
    assert_eq!(rewrite_scope("& a &:hover", "css-1"), ".css-1 a .css-1:hover");
    assert_eq!(rewrite_scope("no marker", "css-1"), "no marker");
}

#[test]
fn minified_output_is_stable() {
    let (_, once) = style("& {\n  margin: 10px 20px;\n  color: red;\n}", &vals(&[]), true).unwrap();
    let twice = process_css_with_lightning(&once, true).unwrap();
    let thrice = process_css_with_lightning(&twice, true).unwrap();
    assert_eq!(twice, thrice);
    assert_eq!(once, twice);
}

#[test]
fn unminified_output_has_newlines() {
    let out = process_css_with_lightning(".a { color: blue; }", false).unwrap();
    assert!(out.contains('\n'));
    let out = process_css_with_lightning(".a { color: blue; }", true).unwrap();
    assert!(!out.contains('\n'));
}

#[test]
fn literal_bodies() {
    assert_eq!(parse_literal_to_string("\"& { a: b; }\""), Some("& { a: b; }".to_string()));
    assert_eq!(parse_literal_to_string("r#\"x \"y\"\"#"), Some("x \"y\"".to_string()));
    assert_eq!(parse_literal_to_string("r#\"\"#"), Some("".to_string()));
    assert_eq!(parse_literal_to_string("\""), None);
    assert_eq!(parse_literal_to_string("42"), None);
}

#[test]
fn invalid_selector_is_a_syntax_error() {
    let r = style("&::first-letter:last-child { color: red; }", &vals(&[]), false);
    match r {
        Err(CompileError::CssSyntaxError(m)) => assert!(!m.is_empty()),
        other => panic!("expected a syntax error, got {:?}", other),
    }
    let r = process_css_with_lightning("a::first-letter:last-child {color:red}", true);
    assert!(matches!(r, Err(CompileError::CssSyntaxError(_))));
}

#[test]
fn error_messages() {
    assert!(!CompileError::UnclosedPlaceholder.message().is_empty());
    assert!(!CompileError::UnresolvedPlaceholder.message().is_empty());
    assert_eq!(CompileError::CssSyntaxError("bad".to_string()).message(), "bad");
    assert_eq!(CompileError::CssPrintError("worse".to_string()).message(), "worse");
}
