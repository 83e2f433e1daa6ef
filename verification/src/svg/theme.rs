//! SVG theme and style block generation: CSS `<style>` blocks for embedded SVG,
//! with color variable definitions, `prefers-color-scheme` media queries and
//! class-based color rules for style-free element rendering.
use vstd::prelude::*;

use crate::svg::tokens::{
    lemma_mapping_line_listed, lemma_ramp_listed, mapping_line, all_mapping_lines, all_value_lines, append_mapping_lines, append_value_lines, color_ramps,
    css_var, css_var_text, ramp_css_prefix, ramp_name, ramp_order, ramp_word, role_name, role_word,
    ColorRamp, ColorRampExt, SemanticRole, ThemeMode,
};
use crate::textseq::{
    concat_map, holds, lemma_concat_map_step, lemma_holds_extend, lemma_holds_in_concat_map,
    lemma_holds_trans, lemma_take_full, push_str,
};

verus! {

/// Controls whether colors are applied via inline `style` attributes
/// or purely through CSS classes with externally-defined rules.
#[derive(Debug, Clone, Copy, PartialEq, Eq, Structural)]
pub enum StyleMode {
    /// Inline `style="fill: var(...)"` attributes on every element.
    Inline,
    /// No inline color styles; colors come from CSS class rules in a `<style>` block.
    ClassOnly,
}

impl Default for StyleMode {
    fn default() -> (m: Self)
        ensures
            m == StyleMode::Inline,
    {
        StyleMode::Inline
    }
}

impl StyleMode {
    /// Returns `true` if inline styles should be generated.
    pub fn is_inline(self) -> (r: bool)
        ensures
            r == (self == StyleMode::Inline),
    {
        match self {
            StyleMode::Inline => true,
            StyleMode::ClassOnly => false,
        }
    }
}

/// The roles whose variables the style block maps, in the order it lists them.
pub open spec fn block_roles() -> Seq<SemanticRole> {
    seq![
        SemanticRole::Fill,
        SemanticRole::Stroke,
        SemanticRole::Title,
        SemanticRole::Subtitle,
        SemanticRole::Edge,
        SemanticRole::Arrow,
        SemanticRole::TextOnColor,
        SemanticRole::Background,
    ]
}

/// The roles that get a class rule, in the order the rules list them:
/// the fill-based roles first, then the stroke-based ones.
pub open spec fn rule_roles() -> Seq<SemanticRole> {
    seq![
        SemanticRole::Fill,
        SemanticRole::Title,
        SemanticRole::Subtitle,
        SemanticRole::TextOnColor,
        SemanticRole::Background,
        SemanticRole::Stroke,
        SemanticRole::Edge,
        SemanticRole::Arrow,
    ]
}

/// The spaces that align the opening brace of a class rule.
pub open spec fn rule_padding(role: SemanticRole) -> Seq<char> {
    match role {
        SemanticRole::Fill => "    "@,
        SemanticRole::Title => "    "@,
        SemanticRole::Subtitle => " "@,
        SemanticRole::TextOnColor => " "@,
        SemanticRole::Background => "       "@,
        SemanticRole::Stroke => "   "@,
        SemanticRole::Edge => "     "@,
        SemanticRole::Arrow => "    "@,
    }
}

/// The CSS property a class rule sets: `stroke` for stroke, edge and arrow, else `fill`.
pub open spec fn rule_property(role: SemanticRole) -> Seq<char> {
    match role {
        SemanticRole::Stroke | SemanticRole::Edge | SemanticRole::Arrow => "stroke"@,
        _ => "fill"@,
    }
}

fn padding_for(role: SemanticRole) -> (r: &'static str)
    ensures
        r@ == rule_padding(role),
{
    match role {
        SemanticRole::Fill => "    ",
        SemanticRole::Title => "    ",
        SemanticRole::Subtitle => " ",
        SemanticRole::TextOnColor => " ",
        SemanticRole::Background => "       ",
        SemanticRole::Stroke => "   ",
        SemanticRole::Edge => "     ",
        SemanticRole::Arrow => "    ",
    }
}

fn property_for(role: SemanticRole) -> (r: &'static str)
    ensures
        r@ == rule_property(role),
{
    match role {
        SemanticRole::Stroke | SemanticRole::Edge | SemanticRole::Arrow => "stroke",
        _ => "fill",
    }
}

/// One class rule: `.dm-<ramp>-<role><pad>{ <property>: var(<prefix>-<role>); }`.
pub open spec fn class_rule_line(ramp: ColorRamp, role: SemanticRole) -> Seq<char> {
    ".dm-"@ + ramp_word(ramp) + "-"@ + role_word(role) + rule_padding(role) + "{ "@
        + rule_property(role) + ": var("@ + ramp_css_prefix(ramp) + "-"@ + role_word(role)
        + "); }\n"@
}

/// `class_rule_line` for one ramp, as a function of the role.
pub open spec fn class_rule_of(ramp: ColorRamp) -> spec_fn(SemanticRole) -> Seq<char> {
    |role: SemanticRole| class_rule_line(ramp, role)
}

/// The class rules of one ramp.
pub open spec fn ramp_class_rules(ramp: ColorRamp) -> Seq<char> {
    concat_map(rule_roles(), class_rule_of(ramp))
}

/// `ramp_class_rules` as a function of the ramp.
pub open spec fn class_rules_of() -> spec_fn(ColorRamp) -> Seq<char> {
    |ramp: ColorRamp| ramp_class_rules(ramp)
}

/// The class rules of every ramp.
pub open spec fn class_rules_text() -> Seq<char> {
    concat_map(ramp_order(), class_rules_of())
}

fn append_ramp_class_rules(css: &mut String, ramp: ColorRamp)
    ensures
        final(css)@ == old(css)@ + ramp_class_rules(ramp),
{
    let ghost start = css@;
    let roles = vec![
        SemanticRole::Fill,
        SemanticRole::Title,
        SemanticRole::Subtitle,
        SemanticRole::TextOnColor,
        SemanticRole::Background,
        SemanticRole::Stroke,
        SemanticRole::Edge,
        SemanticRole::Arrow,
    ];
    assert(roles@ =~= rule_roles());
    let name = ramp_name(ramp);
    let prefix = ramp.css_prefix();
    let mut i: usize = 0;
    while i < roles.len()
        invariant
            0 <= i <= roles@.len(),
            roles@ == rule_roles(),
            name@ == ramp_word(ramp),
            prefix@ == ramp_css_prefix(ramp),
            css@ == start + concat_map(rule_roles().take(i as int), class_rule_of(ramp)),
        decreases roles@.len() - i,
    {
        let role = roles[i];
        proof {
            lemma_concat_map_step(rule_roles(), i as int, class_rule_of(ramp));
        }
        let ghost before = css@;
        push_str(css, ".dm-");
        push_str(css, name);
        push_str(css, "-");
        push_str(css, role_name(role));
        push_str(css, padding_for(role));
        push_str(css, "{ ");
        push_str(css, property_for(role));
        push_str(css, ": var(");
        push_str(css, prefix);
        push_str(css, "-");
        push_str(css, role_name(role));
        push_str(css, "); }\n");
        proof {
            assert(css@ =~= before + class_rule_line(ramp, role));
            assert(css@ =~= start + concat_map(rule_roles().take(i + 1), class_rule_of(ramp)));
        }
        i += 1;
    }
    proof {
        lemma_take_full(rule_roles());
    }
}

fn append_class_rules(css: &mut String)
    ensures
        final(css)@ == old(css)@ + class_rules_text(),
{
    let ghost start = css@;
    let ramps = color_ramps();
    let mut i: usize = 0;
    while i < 9
        invariant
            0 <= i <= 9,
            ramps@ == ramp_order(),
            css@ == start + concat_map(ramp_order().take(i as int), class_rules_of()),
        decreases 9 - i,
    {
        proof {
            lemma_concat_map_step(ramp_order(), i as int, class_rules_of());
        }
        append_ramp_class_rules(css, ramps[i]);
        proof {
            assert(css@ =~= start + concat_map(ramp_order().take(i + 1), class_rules_of()));
        }
        i += 1;
    }
    proof {
        lemma_take_full(ramp_order());
    }
}

/// The CSS inside the complete style block: value variables, light mappings,
/// the dark media query, the manual dark override, and the class rules.
pub open spec fn style_sheet_text() -> Seq<char> {
    "/* Color ramp value variables */\n:root {\n"@ + all_value_lines()
        + "\n  /* Semantic mappings - Light */\n"@
        + all_mapping_lines("  "@, block_roles(), ThemeMode::Light) + "}\n\n"@
        + "@media (prefers-color-scheme: dark) {\n"@ + "  :root {\n"@
        + "    /* Semantic mappings - Dark */\n"@
        + all_mapping_lines("    "@, block_roles(), ThemeMode::Dark) + "  }\n"@ + "}\n\n"@
        + "[data-theme=\"dark\"] {\n"@ + "  /* Semantic mappings - Dark (manual override) */\n"@
        + all_mapping_lines("  "@, block_roles(), ThemeMode::Dark) + "}\n\n"@
        + "/* Class-based color application */\n"@ + class_rules_text()
}

/// Raw CSS wrapped in an SVG `<style>` element.
pub open spec fn style_element_text(css: Seq<char>) -> Seq<char> {
    "<style>\n"@ + css + "</style>"@
}

/// Generates a complete `<style>` element for embedding in an SVG document.
///
/// Contains the CSS custom property definitions for all color ramps and stops,
/// the semantic variable mappings (`--dm-{ramp}-fill`, `--dm-{ramp}-stroke`, etc.),
/// a `prefers-color-scheme: dark` media query for automatic theme switching,
/// a `[data-theme="dark"]` manual override, and class rules mapping
/// `.dm-{ramp}-{role}` to CSS properties.
pub fn style_block() -> (r: String)
    ensures
        r@ == style_element_text(style_sheet_text()),
{
    let roles = vec![
        SemanticRole::Fill,
        SemanticRole::Stroke,
        SemanticRole::Title,
        SemanticRole::Subtitle,
        SemanticRole::Edge,
        SemanticRole::Arrow,
        SemanticRole::TextOnColor,
        SemanticRole::Background,
    ];
    assert(roles@ =~= block_roles());
    let mut css = String::new();
    push_str(&mut css, "/* Color ramp value variables */\n:root {\n");
    append_value_lines(&mut css);
    push_str(&mut css, "\n  /* Semantic mappings - Light */\n");
    append_mapping_lines(&mut css, "  ", &roles, ThemeMode::Light);
    push_str(&mut css, "}\n\n");
    push_str(&mut css, "@media (prefers-color-scheme: dark) {\n");
    push_str(&mut css, "  :root {\n");
    push_str(&mut css, "    /* Semantic mappings - Dark */\n");
    append_mapping_lines(&mut css, "    ", &roles, ThemeMode::Dark);
    push_str(&mut css, "  }\n");
    push_str(&mut css, "}\n\n");
    push_str(&mut css, "[data-theme=\"dark\"] {\n");
    push_str(&mut css, "  /* Semantic mappings - Dark (manual override) */\n");
    append_mapping_lines(&mut css, "  ", &roles, ThemeMode::Dark);
    push_str(&mut css, "}\n\n");
    push_str(&mut css, "/* Class-based color application */\n");
    append_class_rules(&mut css);
    proof {
        assert(css@ =~= style_sheet_text());
    }
    wrap_style_block(css.as_str())
}

/// Generates CSS class rules only (without variable definitions),
/// useful when the variables are already defined elsewhere (e.g. an HTML page
/// hosting the SVG).
pub fn class_rules_only() -> (r: String)
    ensures
        r@ == class_rules_text(),
{
    let mut css = String::new();
    append_class_rules(&mut css);
    proof {
        assert(css@ =~= class_rules_text());
    }
    css
}

/// Wraps raw CSS in an SVG `<style>` element.
pub fn wrap_style_block(css: &str) -> (r: String)
    ensures
        r@ == style_element_text(css@),
{
    let mut out = String::new();
    push_str(&mut out, "<style>\n");
    push_str(&mut out, css);
    push_str(&mut out, "</style>");
    proof {
        assert(out@ =~= style_element_text(css@));
    }
    out
}

/// The attribute `maybe_style_attr` returns: empty in `ClassOnly` mode; in `Inline`
/// mode ` style="<property>: var(--dm-<ramp>-<stop>)"`, with `; <extra>` before the closing
/// quote when `extra` is not empty.
pub open spec fn style_attr_text(
    mode: StyleMode,
    ramp: ColorRamp,
    role: SemanticRole,
    theme: ThemeMode,
    property: Seq<char>,
    extra: Seq<char>,
) -> Seq<char> {
    if mode == StyleMode::Inline {
        let head = " style=\""@ + property + ": "@ + css_var_text(ramp, role, theme);
        if extra.len() == 0 {
            head + "\""@
        } else {
            head + "; "@ + extra + "\""@
        }
    } else {
        Seq::empty()
    }
}

/// Returns a style attribute string for the given semantic role,
/// or an empty string when in `ClassOnly` mode.
pub fn maybe_style_attr(
    mode: StyleMode,
    ramp: ColorRamp,
    role: SemanticRole,
    theme: ThemeMode,
    property: &str,
    extra: &str,
) -> (r: String)
    ensures
        r@ == style_attr_text(mode, ramp, role, theme, property@, extra@),
{
    let mut out = String::new();
    if mode.is_inline() {
        let var = css_var(ramp, role, theme);
        push_str(&mut out, " style=\"");
        push_str(&mut out, property);
        push_str(&mut out, ": ");
        push_str(&mut out, var.as_str());
        if extra.is_empty() {
            push_str(&mut out, "\"");
        } else {
            push_str(&mut out, "; ");
            push_str(&mut out, extra);
            push_str(&mut out, "\"");
        }
    }
    proof {
        assert(out@ =~= style_attr_text(mode, ramp, role, theme, property@, extra@));
    }
    out
}

/// Every role is listed among the roles the style block maps and among the
/// roles that get a class rule.
pub proof fn lemma_role_listed(role: SemanticRole)
    ensures
        block_roles().contains(role),
        rule_roles().contains(role),
{
    let (b, r): (int, int) = match role {
        SemanticRole::Fill => (0, 0),
        SemanticRole::Stroke => (1, 5),
        SemanticRole::Title => (2, 1),
        SemanticRole::Subtitle => (3, 2),
        SemanticRole::Edge => (4, 6),
        SemanticRole::Arrow => (5, 7),
        SemanticRole::TextOnColor => (6, 3),
        SemanticRole::Background => (7, 4),
    };
    assert(block_roles()[b] == role);
    assert(rule_roles()[r] == role);
}

/// The style block up to its `@media` line: the values and the light mappings.
pub open spec fn block_light_part() -> Seq<char> {
    "<style>\n"@ + ("/* Color ramp value variables */\n:root {\n"@ + all_value_lines()
        + "\n  /* Semantic mappings - Light */\n"@
        + all_mapping_lines("  "@, block_roles(), ThemeMode::Light) + "}\n\n"@)
}

/// The style block after its `@media` line: the dark mappings, the manual
/// dark override and the class rules.
pub open spec fn block_dark_part() -> Seq<char> {
    "  :root {\n"@ + "    /* Semantic mappings - Dark */\n"@
        + all_mapping_lines("    "@, block_roles(), ThemeMode::Dark) + "  }\n"@ + "}\n\n"@
        + "[data-theme=\"dark\"] {\n"@ + "  /* Semantic mappings - Dark (manual override) */\n"@
        + all_mapping_lines("  "@, block_roles(), ThemeMode::Dark) + "}\n\n"@
        + "/* Class-based color application */\n"@ + class_rules_text() + "</style>"@
}

/// For every ramp and every role, the style block maps the role variable to
/// its light-mode stop before the `@media` line, to its dark-mode stop after
/// it (in the media query and in the manual override), and holds the class
/// rule `.dm-<ramp>-<role>` that sets `stroke` for stroke, edge and arrow and
/// `fill` otherwise.
#[verifier::spinoff_prover]
pub proof fn lemma_style_block_layout(ramp: ColorRamp, role: SemanticRole)
    ensures
        style_element_text(style_sheet_text()) == block_light_part()
            + "@media (prefers-color-scheme: dark) {\n"@ + block_dark_part(),
        holds(block_light_part(), mapping_line("  "@, ramp, role, ThemeMode::Light)),
        holds(block_dark_part(), mapping_line("    "@, ramp, role, ThemeMode::Dark)),
        holds(block_dark_part(), mapping_line("  "@, ramp, role, ThemeMode::Dark)),
        holds(block_dark_part(), class_rule_line(ramp, role)),
        rule_property(role) == if role == SemanticRole::Stroke || role == SemanticRole::Edge
            || role == SemanticRole::Arrow {
            "stroke"@
        } else {
            "fill"@
        },
{
    lemma_regroup_block(
        "<style>\n"@,
        "/* Color ramp value variables */\n:root {\n"@,
        all_value_lines(),
        "\n  /* Semantic mappings - Light */\n"@,
        all_mapping_lines("  "@, block_roles(), ThemeMode::Light),
        "}\n\n"@,
        "@media (prefers-color-scheme: dark) {\n"@,
        "  :root {\n"@ + "    /* Semantic mappings - Dark */\n"@,
        all_mapping_lines("    "@, block_roles(), ThemeMode::Dark),
        "  }\n"@ + "}\n\n"@ + "[data-theme=\"dark\"] {\n"@
            + "  /* Semantic mappings - Dark (manual override) */\n"@,
        all_mapping_lines("  "@, block_roles(), ThemeMode::Dark),
        "}\n\n"@ + "/* Class-based color application */\n"@,
        class_rules_text(),
        "</style>"@,
    );
    assert(style_element_text(style_sheet_text()) == block_light_part()
        + "@media (prefers-color-scheme: dark) {\n"@ + block_dark_part());
    lemma_role_listed(role);
    lemma_block_light_holds(ramp, role);
    lemma_block_dark_holds(ramp, role);
}

/// Regrouping the pieces of the style block around its `@media` line.
proof fn lemma_regroup_block(
    s: Seq<char>,
    a: Seq<char>,
    v: Seq<char>,
    b: Seq<char>,
    l: Seq<char>,
    c: Seq<char>,
    m: Seq<char>,
    d: Seq<char>,
    dm: Seq<char>,
    h: Seq<char>,
    dm2: Seq<char>,
    j: Seq<char>,
    r: Seq<char>,
    z: Seq<char>,
)
    ensures
        s + (a + v + b + l + c + m + d + dm + h + dm2 + j + r) + z == s + (a + v + b + l + c) + m + (d
            + dm + h + dm2 + j + r + z),
{
    assert(s + (a + v + b + l + c + m + d + dm + h + dm2 + j + r) + z =~= s + (a + v + b + l + c) + m
        + (d + dm + h + dm2 + j + r + z));
}

/// The light part of the style block holds the light mapping of every role.
#[verifier::spinoff_prover]
proof fn lemma_block_light_holds(ramp: ColorRamp, role: SemanticRole)
    ensures
        holds(block_light_part(), mapping_line("  "@, ramp, role, ThemeMode::Light)),
{
    lemma_role_listed(role);
    let light = all_mapping_lines("  "@, block_roles(), ThemeMode::Light);
    lemma_mapping_line_listed("  "@, block_roles(), ThemeMode::Light, ramp, role);
    let y = mapping_line("  "@, ramp, role, ThemeMode::Light);
    let l0 = "/* Color ramp value variables */\n:root {\n"@ + all_value_lines()
        + "\n  /* Semantic mappings - Light */\n"@;
    lemma_holds_extend(l0, light, y);
    lemma_holds_extend(l0 + light, "}\n\n"@, y);
    lemma_holds_extend("<style>\n"@, l0 + light + "}\n\n"@, y);
}

/// The dark part of the style block holds both dark mappings of every role
/// and its class rule.
#[verifier::spinoff_prover]
proof fn lemma_block_dark_holds(ramp: ColorRamp, role: SemanticRole)
    ensures
        holds(block_dark_part(), mapping_line("    "@, ramp, role, ThemeMode::Dark)),
        holds(block_dark_part(), mapping_line("  "@, ramp, role, ThemeMode::Dark)),
        holds(block_dark_part(), class_rule_line(ramp, role)),
{
    lemma_role_listed(role);
    let dark_media = all_mapping_lines("    "@, block_roles(), ThemeMode::Dark);
    let dark_manual = all_mapping_lines("  "@, block_roles(), ThemeMode::Dark);
    lemma_mapping_line_listed("    "@, block_roles(), ThemeMode::Dark, ramp, role);
    lemma_mapping_line_listed("  "@, block_roles(), ThemeMode::Dark, ramp, role);
    let k = lemma_ramp_listed(ramp);
    let j = choose|j: int| 0 <= j < rule_roles().len() && rule_roles()[j] == role;
    lemma_holds_in_concat_map(ramp_order(), class_rules_of(), k);
    lemma_holds_in_concat_map(rule_roles(), class_rule_of(ramp), j);
    lemma_holds_trans(class_rules_text(), ramp_class_rules(ramp), class_rule_line(ramp, role));

    let d0 = "  :root {\n"@ + "    /* Semantic mappings - Dark */\n"@;
    let d1 = d0 + dark_media + "  }\n"@ + "}\n\n"@ + "[data-theme=\"dark\"] {\n"@
        + "  /* Semantic mappings - Dark (manual override) */\n"@;
    let d2 = d1 + dark_manual + "}\n\n"@ + "/* Class-based color application */\n"@;
    let z = mapping_line("    "@, ramp, role, ThemeMode::Dark);
    lemma_holds_extend(d0, dark_media, z);
    lemma_holds_extend(d0 + dark_media, "  }\n"@, z);
    lemma_holds_extend(d0 + dark_media + "  }\n"@, "}\n\n"@, z);
    lemma_holds_extend(d0 + dark_media + "  }\n"@ + "}\n\n"@, "[data-theme=\"dark\"] {\n"@, z);
    lemma_holds_extend(
        d0 + dark_media + "  }\n"@ + "}\n\n"@ + "[data-theme=\"dark\"] {\n"@,
        "  /* Semantic mappings - Dark (manual override) */\n"@,
        z,
    );
    lemma_holds_extend(d1, dark_manual, z);
    lemma_holds_extend(d1 + dark_manual, "}\n\n"@, z);
    lemma_holds_extend(d1 + dark_manual + "}\n\n"@, "/* Class-based color application */\n"@, z);
    lemma_holds_extend(d2, class_rules_text(), z);
    lemma_holds_extend(d2 + class_rules_text(), "</style>"@, z);
    let w = mapping_line("  "@, ramp, role, ThemeMode::Dark);
    lemma_holds_extend(d1, dark_manual, w);
    lemma_holds_extend(d1 + dark_manual, "}\n\n"@, w);
    lemma_holds_extend(d1 + dark_manual + "}\n\n"@, "/* Class-based color application */\n"@, w);
    lemma_holds_extend(d2, class_rules_text(), w);
    lemma_holds_extend(d2 + class_rules_text(), "</style>"@, w);
    let c = class_rule_line(ramp, role);
    lemma_holds_extend(d2, class_rules_text(), c);
    lemma_holds_extend(d2 + class_rules_text(), "</style>"@, c);
}

/// A class rule sets `stroke` for the stroke, edge and arrow roles and `fill`
/// for every other role, from the ramp's role variable.
pub proof fn lemma_class_rule_property(ramp: ColorRamp, role: SemanticRole)
    ensures
        class_rule_line(ramp, role) == ".dm-"@ + ramp_word(ramp) + "-"@ + role_word(role) + rule_padding(
            role,
        ) + "{ "@ + (if role == SemanticRole::Stroke || role == SemanticRole::Edge || role
            == SemanticRole::Arrow {
            "stroke"@
        } else {
            "fill"@
        }) + ": var("@ + ramp_css_prefix(ramp) + "-"@ + role_word(role) + "); }\n"@,
{
}

/// The inline style attribute names the property and the role's variable for
/// the requested theme, then the extra declarations if any; in class-only
/// mode there is no attribute.
pub proof fn lemma_style_attr_layout(
    mode: StyleMode,
    ramp: ColorRamp,
    role: SemanticRole,
    theme: ThemeMode,
    property: Seq<char>,
    extra: Seq<char>,
)
    ensures
        mode == StyleMode::ClassOnly ==> style_attr_text(mode, ramp, role, theme, property, extra)
            == Seq::<char>::empty(),
        mode == StyleMode::Inline && extra.len() == 0 ==> style_attr_text(
            mode,
            ramp,
            role,
            theme,
            property,
            extra,
        ) == " style=\""@ + property + ": "@ + css_var_text(ramp, role, theme) + "\""@,
        mode == StyleMode::Inline && extra.len() > 0 ==> style_attr_text(
            mode,
            ramp,
            role,
            theme,
            property,
            extra,
        ) == " style=\""@ + property + ": "@ + css_var_text(ramp, role, theme) + "; "@ + extra
            + "\""@,
{
}

} // verus!
