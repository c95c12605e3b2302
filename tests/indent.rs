use apply_edits::indent::{
    convert_to_target_style, detect_indent_style, find_indent_base, gcd, language_default_indent,
    normalize_for_comparison, style_for_extension, IndentStyle,
};

#[test]
fn test_detect_spaces_4() {
    let content = "function foo() {\n    let x = 1;\n    if (x) {\n        return x;\n    }\n}";
    let style = detect_indent_style(content, "js");
    assert_eq!(style, IndentStyle::Spaces(4));
}

#[test]
fn test_detect_spaces_2() {
    let content = "function foo() {\n  let x = 1;\n  if (x) {\n    return x;\n  }\n}";
    let style = detect_indent_style(content, "js");
    assert_eq!(style, IndentStyle::Spaces(2));
}

#[test]
fn test_detect_tabs() {
    let content = "func foo() {\n\tlet x = 1\n\tif x {\n\t\treturn x\n\t}\n}";
    let style = detect_indent_style(content, "go");
    assert_eq!(style, IndentStyle::Tabs);
}

#[test]
fn test_language_default() {
    assert_eq!(language_default_indent("go"), IndentStyle::Tabs);
    assert_eq!(language_default_indent("py"), IndentStyle::Spaces(4));
    assert_eq!(language_default_indent("ts"), IndentStyle::Spaces(2));
    assert_eq!(language_default_indent("rs"), IndentStyle::Spaces(4));
}

#[test]
fn test_convert_spaces_to_tabs() {
    let content = "function foo() {\n    let x = 1;\n}";
    let converted = convert_to_target_style(content, IndentStyle::Spaces(4), IndentStyle::Tabs);
    assert!(converted.contains("\tlet x = 1;"));
}

#[test]
fn test_convert_tabs_to_spaces() {
    let content = "function foo() {\n\tlet x = 1;\n}";
    let converted = convert_to_target_style(content, IndentStyle::Tabs, IndentStyle::Spaces(4));
    assert!(converted.contains("    let x = 1;"));
}

#[test]
fn extension_defaults_ignore_case() {
    assert_eq!(language_default_indent("GO"), IndentStyle::Tabs);
    assert_eq!(language_default_indent("Makefile"), IndentStyle::Tabs);
    assert_eq!(language_default_indent("YML"), IndentStyle::Spaces(2));
    assert_eq!(language_default_indent("unknownext"), IndentStyle::Spaces(4));
    assert_eq!(style_for_extension("svelte"), IndentStyle::Spaces(2));
    assert_eq!(style_for_extension("GO"), IndentStyle::Spaces(4));
    assert_eq!(IndentStyle::default(), IndentStyle::Spaces(4));
}

#[test]
fn detection_fallbacks_and_mixed() {
    assert_eq!(detect_indent_style("", "go"), IndentStyle::Tabs);
    assert_eq!(detect_indent_style("a\nb", "py"), IndentStyle::Spaces(4));
    // four tab lines, two space lines: spaces are a third of indented lines
    let mixed = "a\n\tb\n\tc\n\td\n\te\n  f\n  g";
    assert_eq!(detect_indent_style(mixed, "rs"), IndentStyle::Mixed);
    // five tab lines, one space line: a sixth, so tabs
    let tabs = "a\n\tb\n\tc\n\td\n\te\n\tf\n  g";
    assert_eq!(detect_indent_style(tabs, "rs"), IndentStyle::Tabs);
    // only widths of 3: the base is 3
    assert_eq!(detect_indent_style("a\n   b\n   c", "rs"), IndentStyle::Spaces(3));
    // width 12 alone is over 8: the extension decides
    assert_eq!(detect_indent_style("a\n            b", "ts"), IndentStyle::Spaces(2));
}

#[test]
fn gcd_and_indent_base() {
    assert_eq!(gcd(12, 8), 4);
    assert_eq!(gcd(7, 0), 7);
    assert_eq!(find_indent_base(&vec![(4, 3), (8, 2)]), 4);
    assert_eq!(find_indent_base(&vec![(3, 3), (6, 1)]), 3);
    assert_eq!(find_indent_base(&vec![(6, 2), (9, 1)]), 3);
    assert_eq!(find_indent_base(&vec![(2, 1), (3, 1)]), 2);
    assert_eq!(find_indent_base(&vec![]), 4);
    assert_eq!(find_indent_base(&vec![(16, 2), (32, 1)]), 16);
}

#[test]
fn normalize_for_comparison_styles() {
    assert_eq!(normalize_for_comparison("\t  x\n        y", IndentStyle::Tabs), "\tx\n\t\ty");
    assert_eq!(normalize_for_comparison("\t x", IndentStyle::Spaces(2)), "   x");
    assert_eq!(normalize_for_comparison("  x  \ny\t", IndentStyle::Mixed), "  x\ny");
}

#[test]
fn convert_keeps_remainder_and_round_trips() {
    assert_eq!(convert_to_target_style("      x\ny", IndentStyle::Spaces(4), IndentStyle::Spaces(2)), "    x\ny");
    let text = "fn a() {\n    b();\n        c();\n}";
    let there = convert_to_target_style(text, IndentStyle::Spaces(4), IndentStyle::Spaces(2));
    assert_eq!(there, "fn a() {\n  b();\n    c();\n}");
    let back = convert_to_target_style(&there, IndentStyle::Spaces(2), IndentStyle::Spaces(4));
    assert_eq!(back, text);
    assert_eq!(convert_to_target_style("     x", IndentStyle::Spaces(4), IndentStyle::Tabs), "\t x");
    assert_eq!(convert_to_target_style("x\n", IndentStyle::Tabs, IndentStyle::Tabs), "x\n");
}

#[test]
fn convert_keeps_line_endings() {
    let there = convert_to_target_style("\n", IndentStyle::Spaces(4), IndentStyle::Spaces(2));
    assert_eq!(there, "\n");
    assert_eq!(convert_to_target_style(&there, IndentStyle::Spaces(2), IndentStyle::Spaces(4)), "\n");
    assert_eq!(convert_to_target_style("a\n\n", IndentStyle::Spaces(4), IndentStyle::Spaces(2)), "a\n\n");
    assert_eq!(
        convert_to_target_style("    a\r\n        b\r\n", IndentStyle::Spaces(4), IndentStyle::Spaces(2)),
        "  a\r\n    b\r\n"
    );
    assert_eq!(convert_to_target_style("\tx\n\n", IndentStyle::Tabs, IndentStyle::Spaces(4)), "    x\n\n");
}
