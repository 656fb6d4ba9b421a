use reedstyle::optimizer::{minify_css, optimize_css, parse_css_rules, remove_comments};

#[test]
fn test_grouping() {
    let css = r#"
            .a { color: red; padding: 10px; }
            .b { color: red; padding: 10px; }
            .c { color: blue; }
        "#;
    let result = minify_css(css);
    assert!(result.contains(".a,.b{") || result.contains(".b,.a{"));
}

#[test]
fn test_oklch_preservation() {
    let css = ":root { --color: oklch(68.5% 0.24 25); }";
    let result = minify_css(css);
    assert!(result.contains("oklch(68.5% 0.24 25)"));
}

#[test]
fn merged_rules_keep_first_seen_order() {
    let result = minify_css(".a{color:red;padding:10px}.b{color:red;padding:10px}");
    assert_eq!(result, ".a,.b{color:red;padding:10px}");
}

#[test]
fn grouping_ignores_declaration_order() {
    let result = minify_css(".a{color:red;padding:10px}.b{padding:10px;color:red}.c{color:blue}");
    assert_eq!(result, ".a,.b{color:red;padding:10px}.c{color:blue}");
}

#[test]
fn zero_units_are_normalized() {
    assert_eq!(minify_css(".m{margin:0px 0em 0rem 0px;}"), ".m{margin:0}");
}

#[test]
fn value_used_five_times_is_hoisted() {
    let mut css = String::new();
    for i in 0..5 {
        css.push_str(&format!(".r{}{{border:abcdefghijk;x{}:y}}", i, i));
    }
    let result = minify_css(&css);
    assert!(result.starts_with(":root{--_0:abcdefghijk;}"));
    assert!(result.contains(".r0{border:var(--_0);x0:y}"));
}

#[test]
fn value_used_four_times_is_not_hoisted() {
    let mut css = String::new();
    for i in 0..4 {
        css.push_str(&format!(".r{}{{border:abcdefghijklmnop;x{}:y}}", i, i));
    }
    let result = minify_css(&css);
    assert!(!result.contains(":root"));
    assert!(!result.contains("var(--_"));
}

#[test]
fn oklch_values_are_never_hoisted() {
    let mut css = String::new();
    for i in 0..6 {
        css.push_str(&format!(".r{}{{color:oklch(50% 0.1 20);x{}:y}}", i, i));
    }
    let result = minify_css(&css);
    assert!(!result.contains(":root"));
}

#[test]
fn minifying_twice_changes_nothing() {
    let css = "/* head */ .a { color: red; margin: 0px 0px; }\n.b { color: red; margin: 0px 0px; }\n.c { padding: 1px 2px; }";
    let once = minify_css(css);
    assert_eq!(once, ".a,.b{color:red;margin:0}.c{padding:1px 2px}");
    assert_eq!(minify_css(&once), once);
}

#[test]
fn layer_statement_is_emitted_first() {
    let result = minify_css("@layer theme;\n.a{color:red}");
    assert!(result.starts_with("@layer settings,bridge,theme,free;"));
}

#[test]
fn comments_are_removed_and_unterminated_comment_runs_to_end() {
    assert_eq!(remove_comments("a/* x */b/* y"), "ab");
    assert_eq!(remove_comments("no comment"), "no comment");
}

#[test]
fn empty_and_incomplete_rules_are_dropped() {
    assert_eq!(minify_css(""), "");
    assert_eq!(minify_css(".a{}.b{color:red}{x:y}"), ".b{color:red}");
    let rules = parse_css_rules(".a{ color : red ;\n padding:1px}");
    assert_eq!(rules.len(), 1);
    assert_eq!(rules[0].selector, ".a");
    assert_eq!(rules[0].declarations[0].property, "color");
    assert_eq!(rules[0].declarations[0].value, "red");
    assert_eq!(rules[0].declarations[1].value, "1px");
}

#[test]
fn development_build_keeps_css() {
    assert_eq!(optimize_css(".a { color: red; }"), ".a { color: red; }");
}

#[test]
fn layer_statement_output_is_stable() {
    let once = minify_css("@layer x;a{b:c}");
    assert_eq!(once, "@layer settings,bridge,theme,free;a{b:c}");
    assert_eq!(minify_css(&once), once);
}
