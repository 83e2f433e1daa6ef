use diagramma::svg::tokens::{
    color_class, color_ramps, css_var, generate_css_variables, semantic_stop, ColorRamp,
    ColorRampExt, ColorStop, SemanticRole, ThemeMode,
};

#[test]
fn test_color_stop_values() {
    // Verify purple ramp values
    assert_eq!(ColorRamp::Purple.stop(ColorStop::S50), "#faf5ff");
    assert_eq!(ColorRamp::Purple.stop(ColorStop::S600), "#9333ea");
    assert_eq!(ColorRamp::Purple.stop(ColorStop::S900), "#3b0764");
}

#[test]
fn test_semantic_mapping_light() {
    assert_eq!(semantic_stop(SemanticRole::Fill, ThemeMode::Light), ColorStop::S50);
    assert_eq!(semantic_stop(SemanticRole::Stroke, ThemeMode::Light), ColorStop::S600);
    assert_eq!(semantic_stop(SemanticRole::Title, ThemeMode::Light), ColorStop::S800);
    assert_eq!(semantic_stop(SemanticRole::Subtitle, ThemeMode::Light), ColorStop::S600);
}

#[test]
fn test_semantic_mapping_dark() {
    assert_eq!(semantic_stop(SemanticRole::Fill, ThemeMode::Dark), ColorStop::S800);
    assert_eq!(semantic_stop(SemanticRole::Stroke, ThemeMode::Dark), ColorStop::S200);
    assert_eq!(semantic_stop(SemanticRole::Title, ThemeMode::Dark), ColorStop::S100);
    assert_eq!(semantic_stop(SemanticRole::Subtitle, ThemeMode::Dark), ColorStop::S200);
}

#[test]
fn test_css_var_generation() {
    let var = css_var(ColorRamp::Blue, SemanticRole::Stroke, ThemeMode::Light);
    assert_eq!(var, "var(--dm-blue-600)");
}

#[test]
fn test_semantic_mapping_auto() {
    // Auto mode should behave like Light mode for static generation
    assert_eq!(semantic_stop(SemanticRole::Fill, ThemeMode::Auto), ColorStop::S50);
    assert_eq!(semantic_stop(SemanticRole::Stroke, ThemeMode::Auto), ColorStop::S600);
    assert_eq!(semantic_stop(SemanticRole::Title, ThemeMode::Auto), ColorStop::S800);
    assert_eq!(semantic_stop(SemanticRole::Subtitle, ThemeMode::Auto), ColorStop::S600);
}

#[test]
fn test_background_role_mapping() {
    // Background should follow same mapping as Fill
    assert_eq!(semantic_stop(SemanticRole::Background, ThemeMode::Light), ColorStop::S50);
    assert_eq!(semantic_stop(SemanticRole::Background, ThemeMode::Dark), ColorStop::S800);
    assert_eq!(semantic_stop(SemanticRole::Background, ThemeMode::Auto), ColorStop::S50);
}

#[test]
fn test_all_color_stops_accessible() {
    // Verify all 9 ramps have all 7 stops accessible
    for ramp in color_ramps() {
        for stop in ColorStop::all() {
            let value = ramp.stop(stop);
            // Verify it's a valid hex color
            assert!(
                value.starts_with('#') && value.len() == 7,
                "Invalid color value for {ramp:?} {stop:?}: {value}"
            );
        }
    }
}

#[test]
fn test_css_variables_output() {
    let css = generate_css_variables();
    // Should contain all ramps
    assert!(css.contains("--dm-purple-50"));
    assert!(css.contains("--dm-teal-100"));
    assert!(css.contains("--dm-blue-900"));

    // Should contain semantic mappings
    assert!(css.contains("--dm-purple-fill"));
    assert!(css.contains("--dm-blue-stroke"));

    // Should contain dark mode media query
    assert!(css.contains("@media (prefers-color-scheme: dark)"));

    // Should contain manual dark mode override
    assert!(css.contains("[data-theme=\"dark\"]"));
}

#[test]
fn test_color_class() {
    assert_eq!(color_class(ColorRamp::Teal, SemanticRole::Fill), "dm-teal-fill");
    assert_eq!(color_class(ColorRamp::Red, SemanticRole::TextOnColor), "dm-red-text-on-color");
}

#[test]
fn css_variable_sheet_exact_lines() {
    let css = generate_css_variables();
    assert!(css.starts_with(":root {\n  --dm-purple-50: #faf5ff;\n  --dm-purple-100: #f3e8ff;\n"));
    assert!(css.contains("  --dm-red-900: #450a0a;\n\n  /* Semantic mappings - Light */\n"));
    assert!(css.contains("  --dm-teal-fill: var(--dm-teal-50);\n"));
    assert!(css.contains("  --dm-teal-text-on-color: var(--dm-teal-900);\n"));
    assert!(css.contains("    --dm-gray-fill: var(--dm-gray-800);\n"));
    assert!(css.contains("    --dm-gray-title: var(--dm-gray-100);\n"));
    assert!(css.ends_with("  --dm-red-text-on-color: var(--dm-red-900);\n}\n"));
    // The token sheet maps five roles per ramp, three times, plus 63 value lines.
    assert_eq!(css.matches("--dm-blue-stroke:").count(), 3);
    assert_eq!(css.matches(": #").count(), 63);
}

#[test]
fn css_var_dark_and_auto() {
    assert_eq!(css_var(ColorRamp::Amber, SemanticRole::Fill, ThemeMode::Dark), "var(--dm-amber-800)");
    assert_eq!(css_var(ColorRamp::Amber, SemanticRole::Fill, ThemeMode::Auto), "var(--dm-amber-50)");
    assert_eq!(
        css_var(ColorRamp::Pink, SemanticRole::TextOnColor, ThemeMode::Light),
        "var(--dm-pink-900)"
    );
}

#[test]
fn ramp_prefixes_and_suffixes() {
    assert_eq!(ColorRamp::Coral.css_prefix(), "--dm-coral");
    assert_eq!(ColorRamp::Gray.css_prefix(), "--dm-gray");
    assert_eq!(ColorStop::S400.suffix(), "400");
    assert_eq!(ColorRamp::Red.stop(ColorStop::S400), "#f87171");
    assert_eq!(color_class(ColorRamp::Gray, SemanticRole::Background), "dm-gray-bg");
}

#[test]
fn light_and_dark_differ_for_every_role() {
    for role in [
        SemanticRole::Fill,
        SemanticRole::Stroke,
        SemanticRole::Title,
        SemanticRole::Subtitle,
        SemanticRole::Edge,
        SemanticRole::Arrow,
        SemanticRole::Background,
    ] {
        assert_ne!(semantic_stop(role, ThemeMode::Light), semantic_stop(role, ThemeMode::Dark));
        assert_eq!(semantic_stop(role, ThemeMode::Light), semantic_stop(role, ThemeMode::Auto));
    }
}

#[test]
fn text_on_color_uses_stop_900_in_every_mode() {
    for theme in [ThemeMode::Light, ThemeMode::Dark, ThemeMode::Auto] {
        assert_eq!(semantic_stop(SemanticRole::TextOnColor, theme), ColorStop::S900);
    }
    assert_eq!(
        css_var(ColorRamp::Blue, SemanticRole::TextOnColor, ThemeMode::Dark),
        "var(--dm-blue-900)"
    );
}

const ALL_ROLES: [SemanticRole; 8] = [
    SemanticRole::Fill,
    SemanticRole::Stroke,
    SemanticRole::Title,
    SemanticRole::Subtitle,
    SemanticRole::Edge,
    SemanticRole::Arrow,
    SemanticRole::Background,
    SemanticRole::TextOnColor,
];

#[test]
fn every_role_changes_stop_in_dark_mode() {
    for role in ALL_ROLES {
        if role == SemanticRole::TextOnColor {
            continue;
        }
        assert_ne!(
            semantic_stop(role, ThemeMode::Dark),
            semantic_stop(role, ThemeMode::Light)
        );
        assert_eq!(
            css_var(ColorRamp::Coral, role, ThemeMode::Auto),
            css_var(ColorRamp::Coral, role, ThemeMode::Light)
        );
    }
}

#[test]
fn text_on_color_never_matches_fill() {
    for theme in [ThemeMode::Light, ThemeMode::Dark, ThemeMode::Auto] {
        assert_ne!(
            semantic_stop(SemanticRole::TextOnColor, theme),
            semantic_stop(SemanticRole::Fill, theme)
        );
        assert_ne!(
            semantic_stop(SemanticRole::Title, theme),
            semantic_stop(SemanticRole::Fill, theme)
        );
    }
}

#[test]
fn every_stop_value_is_a_hex_color() {
    let mut count = 0;
    for ramp in color_ramps() {
        for stop in ColorStop::all() {
            let value = ramp.stop(stop);
            assert_eq!(value.len(), 7);
            assert!(value.starts_with('#'));
            assert!(value[1..]
                .chars()
                .all(|c| c.is_ascii_digit() || ('a'..='f').contains(&c)));
            count += 1;
        }
    }
    assert_eq!(count, 63);
}

#[test]
fn sheet_maps_light_before_media_and_dark_after() {
    let css = generate_css_variables();
    let (light, dark) = css.split_once("@media (prefers-color-scheme: dark) {\n").unwrap();
    assert!(light.contains("  --dm-blue-600: #2563eb;\n"));
    assert!(light.contains("  --dm-blue-fill: var(--dm-blue-50);\n"));
    assert!(dark.contains("    --dm-blue-fill: var(--dm-blue-800);\n"));
    assert!(dark.contains("  --dm-blue-text-on-color: var(--dm-blue-900);\n"));
    assert!(!dark.contains("var(--dm-blue-50)"));
}
