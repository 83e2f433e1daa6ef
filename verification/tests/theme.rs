use diagramma::svg::theme::{
    class_rules_only, maybe_style_attr, style_block, wrap_style_block, StyleMode,
};
use diagramma::svg::tokens::{ColorRamp, SemanticRole, ThemeMode};

#[test]
fn test_style_block_contains_variables() {
    let block = style_block();
    assert!(block.starts_with("<style>"));
    assert!(block.ends_with("</style>"));
    assert!(block.contains("--dm-blue-50"));
    assert!(block.contains("--dm-purple-900"));
}

#[test]
fn test_style_block_has_semantic_mappings() {
    let block = style_block();
    assert!(block.contains("--dm-blue-fill"));
    assert!(block.contains("--dm-blue-stroke"));
    assert!(block.contains("--dm-blue-title"));
    assert!(block.contains("--dm-blue-text-on-color"));
}

#[test]
fn test_style_block_has_dark_media_query() {
    let block = style_block();
    assert!(block.contains("@media (prefers-color-scheme: dark)"));
}

#[test]
fn test_style_block_has_manual_dark_override() {
    let block = style_block();
    assert!(block.contains("[data-theme=\"dark\"]"));
}

#[test]
fn test_style_block_has_class_rules() {
    let block = style_block();
    assert!(block.contains(".dm-blue-fill"));
    assert!(block.contains("fill: var(--dm-blue-fill)"));
    assert!(block.contains(".dm-blue-stroke"));
    assert!(block.contains("stroke: var(--dm-blue-stroke)"));
    assert!(block.contains(".dm-blue-edge"));
    assert!(block.contains("stroke: var(--dm-blue-edge)"));
}

#[test]
fn test_class_rules_only_omits_variables() {
    let rules = class_rules_only();
    assert!(!rules.contains(":root"));
    assert!(!rules.contains("@media"));
    assert!(rules.contains(".dm-teal-fill"));
    assert!(rules.contains("fill: var(--dm-teal-fill)"));
}

#[test]
fn test_wrap_style_block() {
    let wrapped = wrap_style_block(".foo { fill: red; }");
    assert_eq!(wrapped, "<style>\n.foo { fill: red; }</style>");
}

#[test]
fn test_maybe_style_attr_inline() {
    let attr = maybe_style_attr(
        StyleMode::Inline,
        ColorRamp::Blue,
        SemanticRole::Fill,
        ThemeMode::Light,
        "fill",
        "",
    );
    assert!(attr.contains("style="));
    assert!(attr.contains("fill:"));
    assert!(attr.contains("var(--dm-blue-50)"));
}

#[test]
fn test_maybe_style_attr_class_only() {
    let attr = maybe_style_attr(
        StyleMode::ClassOnly,
        ColorRamp::Blue,
        SemanticRole::Fill,
        ThemeMode::Light,
        "fill",
        "",
    );
    assert!(attr.is_empty());
}

#[test]
fn test_maybe_style_attr_with_extra() {
    let attr = maybe_style_attr(
        StyleMode::Inline,
        ColorRamp::Red,
        SemanticRole::Stroke,
        ThemeMode::Dark,
        "stroke",
        "stroke-width: 0.5",
    );
    assert!(attr.contains("stroke:"));
    assert!(attr.contains("stroke-width: 0.5"));
    assert!(attr.contains("var(--dm-red-200)"));
}

#[test]
fn maybe_style_attr_exact_text() {
    assert_eq!(
        maybe_style_attr(StyleMode::Inline, ColorRamp::Blue, SemanticRole::Fill, ThemeMode::Light, "fill", ""),
        " style=\"fill: var(--dm-blue-50)\""
    );
    assert_eq!(
        maybe_style_attr(StyleMode::Inline, ColorRamp::Red, SemanticRole::Stroke, ThemeMode::Dark, "stroke", "stroke-width: 0.5"),
        " style=\"stroke: var(--dm-red-200); stroke-width: 0.5\""
    );
}

#[test]
fn class_rules_exact_lines() {
    let rules = class_rules_only();
    assert!(rules.starts_with(".dm-purple-fill    { fill: var(--dm-purple-fill); }\n"));
    assert!(rules.contains(".dm-gray-subtitle { fill: var(--dm-gray-subtitle); }\n"));
    assert!(rules.contains(".dm-amber-bg       { fill: var(--dm-amber-bg); }\n"));
    assert!(rules.ends_with(".dm-red-arrow    { stroke: var(--dm-red-arrow); }\n"));
    assert_eq!(rules.lines().count(), 72);
}

#[test]
fn style_block_layout() {
    let block = style_block();
    assert!(block.starts_with("<style>\n/* Color ramp value variables */\n:root {\n"));
    assert!(block.contains("  --dm-blue-edge: var(--dm-blue-600);\n"));
    assert!(block.contains("    --dm-blue-edge: var(--dm-blue-200);\n"));
    assert!(block.contains("  --dm-green-bg: var(--dm-green-800);\n"));
    assert!(block.contains("}\n\n/* Class-based color application */\n.dm-purple-fill"));
    assert!(block.ends_with(&format!("{}</style>", class_rules_only())));
    assert!(StyleMode::Inline.is_inline());
    assert!(!StyleMode::ClassOnly.is_inline());
    assert_eq!(StyleMode::default(), StyleMode::Inline);
}

#[test]
fn style_block_maps_every_role_around_media_line() {
    let block = style_block();
    let (light, dark) = block.split_once("@media (prefers-color-scheme: dark) {\n").unwrap();
    assert!(light.contains("  --dm-teal-edge: var(--dm-teal-600);\n"));
    assert!(dark.contains("    --dm-teal-edge: var(--dm-teal-200);\n"));
    assert!(dark.contains("  --dm-teal-edge: var(--dm-teal-200);\n"));
    assert!(dark.contains(".dm-teal-edge     { stroke: var(--dm-teal-edge); }\n"));
    assert!(dark.contains(".dm-teal-bg       { fill: var(--dm-teal-bg); }\n"));
}
