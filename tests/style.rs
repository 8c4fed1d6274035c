use scoped_css::style;

const RED: &str = "#ff0000";

fn vals(v: &[&str]) -> Vec<String> {
    v.iter().map(|s| s.to_string()).collect()
}

#[test]
fn test_basic_css_generation() {
    let (_class_name, css) = style("& { color: #1f0000; }", &vals(&[]), false).unwrap();
    assert!(css.contains("color: #1f0000;"));
}

#[test]
fn test_hex_color_parsing() {
    let bg = "#4ecdc4";
    let fg = "#123e45";
    let (class_name, css) =
        style("& { background: [[bg]]; color: [[fg]]; }", &vals(&[bg, fg]), false).unwrap();
    assert!(css.contains("4ecdc4"));
    assert!(css.contains("123e45"));
    assert!(css.contains(&class_name));
}

#[test]
fn test_complex_css() {
    let (class_name, css) = style(
        r#"
            & {
                background: linear-gradient(45deg, #ff6b6b, #4ecdc4);
                box-shadow: 0 4px 8px rgba(0, 0, 0, 0.2);
                transform: translateY(-2px) scale(1.05);
                transition: all 0.3s ease-in-out;
            }
            &:hover {
                transform: translateY(-4px) scale(1.1);
            }
            & .title {
                font-weight: bold;
                color: #333;
            }
        "#,
        &vals(&[]),
        false,
    )
    .unwrap();

    assert!(css.contains("linear-gradient"));
    assert!(css.contains("box-shadow"));
    assert!(css.contains(&class_name));
}

#[test]
fn test_media_queries() {
    let bp = 768;
    let (class_name, css) = style(
        r#"
            & { font-size: 16px; }
            @media (max-width: [[bp]]px) {
                & { font-size: 14px; }
            }
        "#,
        &vec![bp.to_string()],
        false,
    )
    .unwrap();

    assert!(css.contains("@media"));
    assert!(css.contains("768px"));
    assert!(css.contains(&class_name));
}

#[test]
fn test_css_variables() {
    let primary = "#007bff";
    let hover = "#0056b3";
    let (_class_name, css) = style(
        r#"
            & {
                --primary-color: [[primary]];
                --hover-color: [[hover]];
                background-color: var(--primary-color);
            }
            &:hover {
                background-color: var(--hover-color);
            }
        "#,
        &vals(&[primary, hover]),
        false,
    )
    .unwrap();

    assert!(css.contains("--primary-color"));
    assert!(css.contains("var(--primary-color)"));
    assert!(css.contains("007bff"));
}

#[test]
fn test_simple_replacement() {
    let (class_name, css) = style(
        "
        & {
            background-color: [[super::RED]];
        }",
        &vals(&[RED]),
        false,
    )
    .unwrap();

    assert!(class_name.starts_with("css-"));
    assert!(css.contains(&format!(".{}", class_name)));
    // lightningcss prints #ff0000 by its shorter name.
    assert!(css.contains("background-color: red;"));
}

#[test]
fn test_multiple_properties() {
    let (class_name, css) = style(
        "
        & {
            background-color: [[super::RED]];
            color: [[super::RED]];
        }",
        &vals(&[RED, RED]),
        false,
    )
    .unwrap();

    assert!(css.contains("background-color"));
    assert!(css.contains("color"));
    assert!(css.contains(&format!(".{}", class_name)));
}

#[test]
fn test_class_determinism() {
    let (class1, _) = style("& { color: [[super::RED]]; }", &vals(&[RED]), false).unwrap();
    let (class2, _) = style("& { color: [[super::RED]]; }", &vals(&[RED]), false).unwrap();
    assert_eq!(class1, class2, "Class name should be deterministic from CSS");
}

#[test]
fn test_lightningcss_minification() {
    let (_, css) = style(
        "
        & {
            background-color: [[super::RED]];
            margin: 10px 20px;
        }",
        &vals(&[RED]),
        true,
    )
    .unwrap();

    // Should be minified
    assert!(!css.contains("\n"));
    assert!(css.contains("background-color"));
}
