use reedstyle::breakpoints::{generate_responsive, namespace_attribute, wrap_in_media_query};
use reedstyle::parser::parse_reed_attributes;

#[test]
fn attributes_are_split_and_trimmed() {
    let pairs = parse_reed_attributes("padding:4, margin : 2 ,broken, a:b:c");
    assert_eq!(
        pairs,
        vec![
            ("padding".to_string(), "4".to_string()),
            ("margin".to_string(), "2".to_string()),
            ("a".to_string(), "b:c".to_string()),
        ]
    );
    assert!(parse_reed_attributes("").is_empty());
}

#[test]
fn breakpoint_helpers() {
    assert_eq!(namespace_attribute("box", "-tablet"), "box-tablet");
    assert_eq!(wrap_in_media_query("a{}", None), "a{}");
    assert_eq!(
        wrap_in_media_query("a{}", Some("560px")),
        "@media (min-width: 560px) {\na{}}\n"
    );
}

#[test]
fn responsive_output_per_breakpoint() {
    let css = generate_responsive("box", |attr: &str| {
        if attr == "box-phone" { String::new() } else { format!("[{}]", attr) }
    });
    assert_eq!(
        css,
        "[box]@media (min-width: 560px) {\n[box-tablet]}\n@media (min-width: 960px) {\n[box-screen]}\n@media (min-width: 1260px) {\n[box-wide]}\n"
    );
}
