//! Design tokens for themed SVG generation: color ramps, stops, semantic roles,
//! CSS variable references and the CSS variable sheet.
use vstd::prelude::*;

pub use crate::model::ColorRamp;
use crate::textseq::{
    concat_map, holds, lemma_concat_map_step, lemma_holds_extend, lemma_holds_in_concat_map,
    lemma_holds_trans, lemma_take_full, push_str,
};

verus! {

/// Color stop positions in a ramp.
#[derive(Debug, Clone, Copy, PartialEq, Eq, Structural)]
pub enum ColorStop {
    S50,
    S100,
    S200,
    S400,
    S600,
    S800,
    S900,
}

/// Theme mode for SVG rendering.
#[derive(Debug, Clone, Copy, PartialEq, Eq, Structural)]
pub enum ThemeMode {
    Light,
    Dark,
    Auto,
}

impl Default for ThemeMode {
    fn default() -> (t: Self)
        ensures
            t == ThemeMode::Light,
    {
        ThemeMode::Light
    }
}

/// Semantic color roles for diagram elements.
#[derive(Debug, Clone, Copy, PartialEq, Eq, Structural)]
pub enum SemanticRole {
    /// Node/container fill color
    Fill,
    /// Border/stroke color
    Stroke,
    /// Title text color
    Title,
    /// Subtitle text color
    Subtitle,
    /// Edge path color
    Edge,
    /// Arrow marker color
    Arrow,
    /// Background color for the diagram
    Background,
    /// Text on colored backgrounds (same-ramp 800/900)
    TextOnColor,
}

/// The nine ramps, in the order every style sheet lists them.
pub open spec fn ramp_order() -> Seq<ColorRamp> {
    seq![
        ColorRamp::Purple,
        ColorRamp::Teal,
        ColorRamp::Coral,
        ColorRamp::Pink,
        ColorRamp::Gray,
        ColorRamp::Blue,
        ColorRamp::Green,
        ColorRamp::Amber,
        ColorRamp::Red,
    ]
}

/// The seven stops of a ramp, lightest first.
pub open spec fn stop_order() -> Seq<ColorStop> {
    seq![
        ColorStop::S50,
        ColorStop::S100,
        ColorStop::S200,
        ColorStop::S400,
        ColorStop::S600,
        ColorStop::S800,
        ColorStop::S900,
    ]
}

/// All available color ramps.
pub fn color_ramps() -> (r: [ColorRamp; 9])
    ensures
        r@ == ramp_order(),
{
    let r = [
        ColorRamp::Purple,
        ColorRamp::Teal,
        ColorRamp::Coral,
        ColorRamp::Pink,
        ColorRamp::Gray,
        ColorRamp::Blue,
        ColorRamp::Green,
        ColorRamp::Amber,
        ColorRamp::Red,
    ];
    assert(r@ =~= ramp_order());
    r
}

/// The CSS custom property prefix of a ramp, such as `--dm-purple`.
pub open spec fn ramp_css_prefix(ramp: ColorRamp) -> Seq<char> {
    match ramp {
        ColorRamp::Purple => "--dm-purple"@,
        ColorRamp::Teal => "--dm-teal"@,
        ColorRamp::Coral => "--dm-coral"@,
        ColorRamp::Pink => "--dm-pink"@,
        ColorRamp::Gray => "--dm-gray"@,
        ColorRamp::Blue => "--dm-blue"@,
        ColorRamp::Green => "--dm-green"@,
        ColorRamp::Amber => "--dm-amber"@,
        ColorRamp::Red => "--dm-red"@,
    }
}

/// The hex color value of a ramp at a stop.
pub open spec fn ramp_stop_value(ramp: ColorRamp, stop: ColorStop) -> Seq<char> {
    match (ramp, stop) {
        // Purple ramp
        (ColorRamp::Purple, ColorStop::S50) => "#faf5ff"@,
        (ColorRamp::Purple, ColorStop::S100) => "#f3e8ff"@,
        (ColorRamp::Purple, ColorStop::S200) => "#e9d5ff"@,
        (ColorRamp::Purple, ColorStop::S400) => "#c084fc"@,
        (ColorRamp::Purple, ColorStop::S600) => "#9333ea"@,
        (ColorRamp::Purple, ColorStop::S800) => "#6b21a8"@,
        (ColorRamp::Purple, ColorStop::S900) => "#3b0764"@,
        // Teal ramp
        (ColorRamp::Teal, ColorStop::S50) => "#f0fdfa"@,
        (ColorRamp::Teal, ColorStop::S100) => "#ccfbf1"@,
        (ColorRamp::Teal, ColorStop::S200) => "#99f6e4"@,
        (ColorRamp::Teal, ColorStop::S400) => "#2dd4bf"@,
        (ColorRamp::Teal, ColorStop::S600) => "#0d9488"@,
        (ColorRamp::Teal, ColorStop::S800) => "#115e59"@,
        (ColorRamp::Teal, ColorStop::S900) => "#042f2e"@,
        // Coral ramp
        (ColorRamp::Coral, ColorStop::S50) => "#fff7ed"@,
        (ColorRamp::Coral, ColorStop::S100) => "#ffedd5"@,
        (ColorRamp::Coral, ColorStop::S200) => "#fed7aa"@,
        (ColorRamp::Coral, ColorStop::S400) => "#fb923c"@,
        (ColorRamp::Coral, ColorStop::S600) => "#ea580c"@,
        (ColorRamp::Coral, ColorStop::S800) => "#9a3412"@,
        (ColorRamp::Coral, ColorStop::S900) => "#431407"@,
        // Pink ramp
        (ColorRamp::Pink, ColorStop::S50) => "#fdf2f8"@,
        (ColorRamp::Pink, ColorStop::S100) => "#fce7f3"@,
        (ColorRamp::Pink, ColorStop::S200) => "#fbcfe8"@,
        (ColorRamp::Pink, ColorStop::S400) => "#f472b6"@,
        (ColorRamp::Pink, ColorStop::S600) => "#db2777"@,
        (ColorRamp::Pink, ColorStop::S800) => "#9d174d"@,
        (ColorRamp::Pink, ColorStop::S900) => "#500724"@,
        // Gray ramp
        (ColorRamp::Gray, ColorStop::S50) => "#f9fafb"@,
        (ColorRamp::Gray, ColorStop::S100) => "#f3f4f6"@,
        (ColorRamp::Gray, ColorStop::S200) => "#e5e7eb"@,
        (ColorRamp::Gray, ColorStop::S400) => "#9ca3af"@,
        (ColorRamp::Gray, ColorStop::S600) => "#4b5563"@,
        (ColorRamp::Gray, ColorStop::S800) => "#1f2937"@,
        (ColorRamp::Gray, ColorStop::S900) => "#030712"@,
        // Blue ramp
        (ColorRamp::Blue, ColorStop::S50) => "#eff6ff"@,
        (ColorRamp::Blue, ColorStop::S100) => "#dbeafe"@,
        (ColorRamp::Blue, ColorStop::S200) => "#bfdbfe"@,
        (ColorRamp::Blue, ColorStop::S400) => "#60a5fa"@,
        (ColorRamp::Blue, ColorStop::S600) => "#2563eb"@,
        (ColorRamp::Blue, ColorStop::S800) => "#1e40af"@,
        (ColorRamp::Blue, ColorStop::S900) => "#172554"@,
        // Green ramp
        (ColorRamp::Green, ColorStop::S50) => "#f0fdf4"@,
        (ColorRamp::Green, ColorStop::S100) => "#dcfce7"@,
        (ColorRamp::Green, ColorStop::S200) => "#bbf7d0"@,
        (ColorRamp::Green, ColorStop::S400) => "#4ade80"@,
        (ColorRamp::Green, ColorStop::S600) => "#16a34a"@,
        (ColorRamp::Green, ColorStop::S800) => "#166534"@,
        (ColorRamp::Green, ColorStop::S900) => "#052e16"@,
        // Amber ramp
        (ColorRamp::Amber, ColorStop::S50) => "#fffbeb"@,
        (ColorRamp::Amber, ColorStop::S100) => "#fef3c7"@,
        (ColorRamp::Amber, ColorStop::S200) => "#fde68a"@,
        (ColorRamp::Amber, ColorStop::S400) => "#fbbf24"@,
        (ColorRamp::Amber, ColorStop::S600) => "#d97706"@,
        (ColorRamp::Amber, ColorStop::S800) => "#92400e"@,
        (ColorRamp::Amber, ColorStop::S900) => "#451a03"@,
        // Red ramp
        (ColorRamp::Red, ColorStop::S50) => "#fef2f2"@,
        (ColorRamp::Red, ColorStop::S100) => "#fee2e2"@,
        (ColorRamp::Red, ColorStop::S200) => "#fecaca"@,
        (ColorRamp::Red, ColorStop::S400) => "#f87171"@,
        (ColorRamp::Red, ColorStop::S600) => "#dc2626"@,
        (ColorRamp::Red, ColorStop::S800) => "#991b1b"@,
        (ColorRamp::Red, ColorStop::S900) => "#450a0a"@,
    }
}

/// The numeric suffix of a stop, used in CSS variable names.
pub open spec fn stop_suffix(stop: ColorStop) -> Seq<char> {
    match stop {
        ColorStop::S50 => "50"@,
        ColorStop::S100 => "100"@,
        ColorStop::S200 => "200"@,
        ColorStop::S400 => "400"@,
        ColorStop::S600 => "600"@,
        ColorStop::S800 => "800"@,
        ColorStop::S900 => "900"@,
    }
}

/// Extension trait for `ColorRamp` with SVG-specific methods.
pub trait ColorRampExt: Sized {
    /// The text that `css_prefix` returns.
    spec fn spec_css_prefix(self) -> Seq<char>;

    /// The text that `stop` returns.
    spec fn spec_stop(self, stop: ColorStop) -> Seq<char>;

    /// Returns the CSS custom property prefix for this ramp.
    fn css_prefix(self) -> (r: &'static str)
        ensures
            r@ == self.spec_css_prefix(),
    ;

    /// Returns the color value at a specific stop.
    fn stop(self, stop: ColorStop) -> (r: &'static str)
        ensures
            r@ == self.spec_stop(stop),
    ;
}

impl ColorRampExt for ColorRamp {
    open spec fn spec_css_prefix(self) -> Seq<char> {
        ramp_css_prefix(self)
    }

    open spec fn spec_stop(self, stop: ColorStop) -> Seq<char> {
        ramp_stop_value(self, stop)
    }

    fn css_prefix(self) -> (r: &'static str) {
        match self {
            ColorRamp::Purple => "--dm-purple",
            ColorRamp::Teal => "--dm-teal",
            ColorRamp::Coral => "--dm-coral",
            ColorRamp::Pink => "--dm-pink",
            ColorRamp::Gray => "--dm-gray",
            ColorRamp::Blue => "--dm-blue",
            ColorRamp::Green => "--dm-green",
            ColorRamp::Amber => "--dm-amber",
            ColorRamp::Red => "--dm-red",
        }
    }

    fn stop(self, stop: ColorStop) -> (r: &'static str) {
        // All stop values are pre-calculated based on OKLCH color space adjustments
        // for perceptually uniform lightness scaling.
        match (self, stop) {
            // Purple ramp
            (ColorRamp::Purple, ColorStop::S50) => "#faf5ff",
            (ColorRamp::Purple, ColorStop::S100) => "#f3e8ff",
            (ColorRamp::Purple, ColorStop::S200) => "#e9d5ff",
            (ColorRamp::Purple, ColorStop::S400) => "#c084fc",
            (ColorRamp::Purple, ColorStop::S600) => "#9333ea",
            (ColorRamp::Purple, ColorStop::S800) => "#6b21a8",
            (ColorRamp::Purple, ColorStop::S900) => "#3b0764",
            // Teal ramp
            (ColorRamp::Teal, ColorStop::S50) => "#f0fdfa",
            (ColorRamp::Teal, ColorStop::S100) => "#ccfbf1",
            (ColorRamp::Teal, ColorStop::S200) => "#99f6e4",
            (ColorRamp::Teal, ColorStop::S400) => "#2dd4bf",
            (ColorRamp::Teal, ColorStop::S600) => "#0d9488",
            (ColorRamp::Teal, ColorStop::S800) => "#115e59",
            (ColorRamp::Teal, ColorStop::S900) => "#042f2e",
            // Coral ramp
            (ColorRamp::Coral, ColorStop::S50) => "#fff7ed",
            (ColorRamp::Coral, ColorStop::S100) => "#ffedd5",
            (ColorRamp::Coral, ColorStop::S200) => "#fed7aa",
            (ColorRamp::Coral, ColorStop::S400) => "#fb923c",
            (ColorRamp::Coral, ColorStop::S600) => "#ea580c",
            (ColorRamp::Coral, ColorStop::S800) => "#9a3412",
            (ColorRamp::Coral, ColorStop::S900) => "#431407",
            // Pink ramp
            (ColorRamp::Pink, ColorStop::S50) => "#fdf2f8",
            (ColorRamp::Pink, ColorStop::S100) => "#fce7f3",
            (ColorRamp::Pink, ColorStop::S200) => "#fbcfe8",
            (ColorRamp::Pink, ColorStop::S400) => "#f472b6",
            (ColorRamp::Pink, ColorStop::S600) => "#db2777",
            (ColorRamp::Pink, ColorStop::S800) => "#9d174d",
            (ColorRamp::Pink, ColorStop::S900) => "#500724",
            // Gray ramp
            (ColorRamp::Gray, ColorStop::S50) => "#f9fafb",
            (ColorRamp::Gray, ColorStop::S100) => "#f3f4f6",
            (ColorRamp::Gray, ColorStop::S200) => "#e5e7eb",
            (ColorRamp::Gray, ColorStop::S400) => "#9ca3af",
            (ColorRamp::Gray, ColorStop::S600) => "#4b5563",
            (ColorRamp::Gray, ColorStop::S800) => "#1f2937",
            (ColorRamp::Gray, ColorStop::S900) => "#030712",
            // Blue ramp
            (ColorRamp::Blue, ColorStop::S50) => "#eff6ff",
            (ColorRamp::Blue, ColorStop::S100) => "#dbeafe",
            (ColorRamp::Blue, ColorStop::S200) => "#bfdbfe",
            (ColorRamp::Blue, ColorStop::S400) => "#60a5fa",
            (ColorRamp::Blue, ColorStop::S600) => "#2563eb",
            (ColorRamp::Blue, ColorStop::S800) => "#1e40af",
            (ColorRamp::Blue, ColorStop::S900) => "#172554",
            // Green ramp
            (ColorRamp::Green, ColorStop::S50) => "#f0fdf4",
            (ColorRamp::Green, ColorStop::S100) => "#dcfce7",
            (ColorRamp::Green, ColorStop::S200) => "#bbf7d0",
            (ColorRamp::Green, ColorStop::S400) => "#4ade80",
            (ColorRamp::Green, ColorStop::S600) => "#16a34a",
            (ColorRamp::Green, ColorStop::S800) => "#166534",
            (ColorRamp::Green, ColorStop::S900) => "#052e16",
            // Amber ramp
            (ColorRamp::Amber, ColorStop::S50) => "#fffbeb",
            (ColorRamp::Amber, ColorStop::S100) => "#fef3c7",
            (ColorRamp::Amber, ColorStop::S200) => "#fde68a",
            (ColorRamp::Amber, ColorStop::S400) => "#fbbf24",
            (ColorRamp::Amber, ColorStop::S600) => "#d97706",
            (ColorRamp::Amber, ColorStop::S800) => "#92400e",
            (ColorRamp::Amber, ColorStop::S900) => "#451a03",
            // Red ramp
            (ColorRamp::Red, ColorStop::S50) => "#fef2f2",
            (ColorRamp::Red, ColorStop::S100) => "#fee2e2",
            (ColorRamp::Red, ColorStop::S200) => "#fecaca",
            (ColorRamp::Red, ColorStop::S400) => "#f87171",
            (ColorRamp::Red, ColorStop::S600) => "#dc2626",
            (ColorRamp::Red, ColorStop::S800) => "#991b1b",
            (ColorRamp::Red, ColorStop::S900) => "#450a0a",
        }
    }
}

impl ColorStop {
    /// All available stops.
    pub fn all() -> (r: [ColorStop; 7])
        ensures
            r@ == stop_order(),
    {
        let r = [
            ColorStop::S50,
            ColorStop::S100,
            ColorStop::S200,
            ColorStop::S400,
            ColorStop::S600,
            ColorStop::S800,
            ColorStop::S900,
        ];
        assert(r@ =~= stop_order());
        r
    }

    /// Returns the numeric suffix for CSS variable naming.
    pub fn suffix(self) -> (r: &'static str)
        ensures
            r@ == stop_suffix(self),
    {
        match self {
            ColorStop::S50 => "50",
            ColorStop::S100 => "100",
            ColorStop::S200 => "200",
            ColorStop::S400 => "400",
            ColorStop::S600 => "600",
            ColorStop::S800 => "800",
            ColorStop::S900 => "900",
        }
    }
}

/// The stop a semantic role takes in a theme. `Auto` falls back to the light
/// mapping for static generation; the browser handles `prefers-color-scheme` via CSS.
pub open spec fn role_stop(role: SemanticRole, theme: ThemeMode) -> ColorStop {
    let dark = theme == ThemeMode::Dark;
    match role {
        SemanticRole::Fill | SemanticRole::Background => if dark { ColorStop::S800 } else { ColorStop::S50 },
        SemanticRole::Stroke | SemanticRole::Subtitle | SemanticRole::Edge | SemanticRole::Arrow => if dark {
            ColorStop::S200
        } else {
            ColorStop::S600
        },
        SemanticRole::Title => if dark { ColorStop::S100 } else { ColorStop::S800 },
        SemanticRole::TextOnColor => ColorStop::S900,
    }
}

/// Maps a semantic role to the appropriate color stop for the current theme.
pub fn semantic_stop(role: SemanticRole, theme: ThemeMode) -> (s: ColorStop)
    ensures
        s == role_stop(role, theme),
{
    match role {
        SemanticRole::Fill | SemanticRole::Background => match theme {
            ThemeMode::Light | ThemeMode::Auto => ColorStop::S50,
            ThemeMode::Dark => ColorStop::S800,
        },
        SemanticRole::Stroke | SemanticRole::Subtitle | SemanticRole::Edge | SemanticRole::Arrow => {
            match theme {
                ThemeMode::Light | ThemeMode::Auto => ColorStop::S600,
                ThemeMode::Dark => ColorStop::S200,
            }
        },
        SemanticRole::Title => match theme {
            ThemeMode::Light | ThemeMode::Auto => ColorStop::S800,
            ThemeMode::Dark => ColorStop::S100,
        },
        SemanticRole::TextOnColor => ColorStop::S900,
    }
}

/// The text of `var(<prefix>-<suffix>)` for a ramp, role and theme.
pub open spec fn css_var_text(ramp: ColorRamp, role: SemanticRole, theme: ThemeMode) -> Seq<char> {
    "var("@ + ramp_css_prefix(ramp) + "-"@ + stop_suffix(role_stop(role, theme)) + ")"@
}

/// Returns the CSS color variable reference for a semantic role,
/// e.g. `var(--dm-purple-600)` for a purple node stroke in light mode.
pub fn css_var(ramp: ColorRamp, role: SemanticRole, theme: ThemeMode) -> (r: String)
    ensures
        r@ == css_var_text(ramp, role, theme),
{
    let stop = semantic_stop(role, theme);
    let mut out = String::new();
    push_str(&mut out, "var(");
    push_str(&mut out, ramp.css_prefix());
    push_str(&mut out, "-");
    push_str(&mut out, stop.suffix());
    push_str(&mut out, ")");
    proof {
        assert(out@ =~= css_var_text(ramp, role, theme));
    }
    out
}

/// The class-name word of a ramp, such as `purple`.
pub open spec fn ramp_word(ramp: ColorRamp) -> Seq<char> {
    match ramp {
        ColorRamp::Purple => "purple"@,
        ColorRamp::Teal => "teal"@,
        ColorRamp::Coral => "coral"@,
        ColorRamp::Pink => "pink"@,
        ColorRamp::Gray => "gray"@,
        ColorRamp::Blue => "blue"@,
        ColorRamp::Green => "green"@,
        ColorRamp::Amber => "amber"@,
        ColorRamp::Red => "red"@,
    }
}

/// The class-name word of a role, such as `fill` or `text-on-color`.
pub open spec fn role_word(role: SemanticRole) -> Seq<char> {
    match role {
        SemanticRole::Fill => "fill"@,
        SemanticRole::Stroke => "stroke"@,
        SemanticRole::Title => "title"@,
        SemanticRole::Subtitle => "subtitle"@,
        SemanticRole::Edge => "edge"@,
        SemanticRole::Arrow => "arrow"@,
        SemanticRole::Background => "bg"@,
        SemanticRole::TextOnColor => "text-on-color"@,
    }
}

/// Returns the class-name word of a ramp.
pub fn ramp_name(ramp: ColorRamp) -> (r: &'static str)
    ensures
        r@ == ramp_word(ramp),
{
    match ramp {
        ColorRamp::Purple => "purple",
        ColorRamp::Teal => "teal",
        ColorRamp::Coral => "coral",
        ColorRamp::Pink => "pink",
        ColorRamp::Gray => "gray",
        ColorRamp::Blue => "blue",
        ColorRamp::Green => "green",
        ColorRamp::Amber => "amber",
        ColorRamp::Red => "red",
    }
}

/// Returns the class-name word of a role.
pub fn role_name(role: SemanticRole) -> (r: &'static str)
    ensures
        r@ == role_word(role),
{
    match role {
        SemanticRole::Fill => "fill",
        SemanticRole::Stroke => "stroke",
        SemanticRole::Title => "title",
        SemanticRole::Subtitle => "subtitle",
        SemanticRole::Edge => "edge",
        SemanticRole::Arrow => "arrow",
        SemanticRole::Background => "bg",
        SemanticRole::TextOnColor => "text-on-color",
    }
}

/// The text of the class `dm-<ramp>-<role>`.
pub open spec fn color_class_text(ramp: ColorRamp, role: SemanticRole) -> Seq<char> {
    "dm-"@ + ramp_word(ramp) + "-"@ + role_word(role)
}

/// Returns the CSS class name for applying color to an element.
pub fn color_class(ramp: ColorRamp, role: SemanticRole) -> (r: String)
    ensures
        r@ == color_class_text(ramp, role),
{
    let mut out = String::new();
    push_str(&mut out, "dm-");
    push_str(&mut out, ramp_name(ramp));
    push_str(&mut out, "-");
    push_str(&mut out, role_name(role));
    proof {
        assert(out@ =~= color_class_text(ramp, role));
    }
    out
}

/// The roles whose variables the token sheet maps: fill, stroke, title,
/// subtitle and text-on-color.
pub open spec fn sheet_roles() -> Seq<SemanticRole> {
    seq![
        SemanticRole::Fill,
        SemanticRole::Stroke,
        SemanticRole::Title,
        SemanticRole::Subtitle,
        SemanticRole::TextOnColor,
    ]
}

/// One value definition: `  <prefix>-<suffix>: <value>;`.
pub open spec fn value_line(ramp: ColorRamp, stop: ColorStop) -> Seq<char> {
    "  "@ + ramp_css_prefix(ramp) + "-"@ + stop_suffix(stop) + ": "@ + ramp_stop_value(ramp, stop)
        + ";\n"@
}

/// The value definitions of every stop of a ramp.
pub open spec fn ramp_value_lines(ramp: ColorRamp) -> Seq<char> {
    concat_map(stop_order(), value_line_of(ramp))
}

/// `value_line` for one ramp, as a function of the stop.
pub open spec fn value_line_of(ramp: ColorRamp) -> spec_fn(ColorStop) -> Seq<char> {
    |stop: ColorStop| value_line(ramp, stop)
}

/// `ramp_value_lines` as a function value.
pub open spec fn value_lines_of() -> spec_fn(ColorRamp) -> Seq<char> {
    |ramp: ColorRamp| ramp_value_lines(ramp)
}

/// The value definitions of every stop of every ramp.
pub open spec fn all_value_lines() -> Seq<char> {
    concat_map(ramp_order(), value_lines_of())
}

/// One semantic mapping: `<indent><prefix>-<role>: var(<prefix>-<stop>);`, where
/// `<stop>` is the stop the role takes in `theme`.
pub open spec fn mapping_line(
    indent: Seq<char>,
    ramp: ColorRamp,
    role: SemanticRole,
    theme: ThemeMode,
) -> Seq<char> {
    indent + ramp_css_prefix(ramp) + "-"@ + role_word(role) + ": var("@ + ramp_css_prefix(ramp)
        + "-"@ + stop_suffix(role_stop(role, theme)) + ");\n"@
}

/// `mapping_line` for each of `roles`, as a function of the role.
pub open spec fn mapping_line_of(indent: Seq<char>, ramp: ColorRamp, theme: ThemeMode) -> spec_fn(
    SemanticRole,
) -> Seq<char> {
    |role: SemanticRole| mapping_line(indent, ramp, role, theme)
}

/// The semantic mappings of `roles` for one ramp.
pub open spec fn ramp_mapping_lines(
    indent: Seq<char>,
    ramp: ColorRamp,
    roles: Seq<SemanticRole>,
    theme: ThemeMode,
) -> Seq<char> {
    concat_map(roles, mapping_line_of(indent, ramp, theme))
}

/// `ramp_mapping_lines` as a function of the ramp.
pub open spec fn mapping_lines_of(
    indent: Seq<char>,
    roles: Seq<SemanticRole>,
    theme: ThemeMode,
) -> spec_fn(ColorRamp) -> Seq<char> {
    |ramp: ColorRamp| ramp_mapping_lines(indent, ramp, roles, theme)
}

/// The semantic mappings of `roles` for every ramp.
pub open spec fn all_mapping_lines(
    indent: Seq<char>,
    roles: Seq<SemanticRole>,
    theme: ThemeMode,
) -> Seq<char> {
    concat_map(ramp_order(), mapping_lines_of(indent, roles, theme))
}

fn append_ramp_value_lines(css: &mut String, ramp: ColorRamp)
    ensures
        final(css)@ == old(css)@ + ramp_value_lines(ramp),
{
    let ghost start = css@;
    let ghost f = value_line_of(ramp);
    let stops = ColorStop::all();
    let mut i: usize = 0;
    while i < 7
        invariant
            0 <= i <= 7,
            stops@ == stop_order(),
            f == value_line_of(ramp),
            css@ == start + concat_map(stop_order().take(i as int), f),
        decreases 7 - i,
    {
        let stop = stops[i];
        proof {
            lemma_concat_map_step(stop_order(), i as int, f);
        }
        let ghost before = css@;
        push_str(css, "  ");
        push_str(css, ramp.css_prefix());
        push_str(css, "-");
        push_str(css, stop.suffix());
        push_str(css, ": ");
        push_str(css, ramp.stop(stop));
        push_str(css, ";\n");
        proof {
            assert(css@ =~= before + value_line(ramp, stop));
            assert(css@ =~= start + concat_map(stop_order().take(i + 1), f));
        }
        i += 1;
    }
    proof {
        lemma_take_full(stop_order());
    }
}

/// Appends the value definitions of every stop of every ramp.
pub(crate) fn append_value_lines(css: &mut String)
    ensures
        final(css)@ == old(css)@ + all_value_lines(),
{
    let ghost start = css@;
    let ramps = color_ramps();
    let mut i: usize = 0;
    while i < 9
        invariant
            0 <= i <= 9,
            ramps@ == ramp_order(),
            css@ == start + concat_map(ramp_order().take(i as int), value_lines_of()),
        decreases 9 - i,
    {
        proof {
            lemma_concat_map_step(ramp_order(), i as int, value_lines_of());
        }
        let ghost before = css@;
        append_ramp_value_lines(css, ramps[i]);
        proof {
            assert(css@ =~= start + concat_map(ramp_order().take(i + 1), value_lines_of()));
        }
        i += 1;
    }
    proof {
        lemma_take_full(ramp_order());
    }
}

fn append_ramp_mapping_lines(
    css: &mut String,
    indent: &str,
    ramp: ColorRamp,
    roles: &Vec<SemanticRole>,
    theme: ThemeMode,
)
    ensures
        final(css)@ == old(css)@ + ramp_mapping_lines(indent@, ramp, roles@, theme),
{
    let ghost start = css@;
    let ghost f = mapping_line_of(indent@, ramp, theme);
    let mut i: usize = 0;
    while i < roles.len()
        invariant
            0 <= i <= roles@.len(),
            f == mapping_line_of(indent@, ramp, theme),
            css@ == start + concat_map(roles@.take(i as int), f),
        decreases roles@.len() - i,
    {
        let role = roles[i];
        proof {
            lemma_concat_map_step(roles@, i as int, f);
        }
        let ghost before = css@;
        push_str(css, indent);
        push_str(css, ramp.css_prefix());
        push_str(css, "-");
        push_str(css, role_name(role));
        push_str(css, ": var(");
        push_str(css, ramp.css_prefix());
        push_str(css, "-");
        push_str(css, semantic_stop(role, theme).suffix());
        push_str(css, ");\n");
        proof {
            assert(css@ =~= before + mapping_line(indent@, ramp, role, theme));
            assert(css@ =~= start + concat_map(roles@.take(i + 1), f));
        }
        i += 1;
    }
    proof {
        lemma_take_full(roles@);
    }
}

/// Appends the semantic mappings of `roles` for every ramp.
pub(crate) fn append_mapping_lines(
    css: &mut String,
    indent: &str,
    roles: &Vec<SemanticRole>,
    theme: ThemeMode,
)
    ensures
        final(css)@ == old(css)@ + all_mapping_lines(indent@, roles@, theme),
{
    let ghost start = css@;
    let ghost f = mapping_lines_of(indent@, roles@, theme);
    let ramps = color_ramps();
    let mut i: usize = 0;
    while i < 9
        invariant
            0 <= i <= 9,
            ramps@ == ramp_order(),
            f == mapping_lines_of(indent@, roles@, theme),
            css@ == start + concat_map(ramp_order().take(i as int), f),
        decreases 9 - i,
    {
        proof {
            lemma_concat_map_step(ramp_order(), i as int, f);
        }
        append_ramp_mapping_lines(css, indent, ramps[i], roles, theme);
        proof {
            assert(css@ =~= start + concat_map(ramp_order().take(i + 1), f));
        }
        i += 1;
    }
    proof {
        lemma_take_full(ramp_order());
    }
}

/// The complete CSS variable sheet: `:root` value and light mapping definitions,
/// a `prefers-color-scheme: dark` media query with the dark mappings, and a
/// `[data-theme="dark"]` manual override.
pub open spec fn css_variables_text() -> Seq<char> {
    ":root {\n"@ + all_value_lines() + "\n  /* Semantic mappings - Light */\n"@
        + all_mapping_lines("  "@, sheet_roles(), ThemeMode::Light) + "}\n\n"@
        + "@media (prefers-color-scheme: dark) {\n"@ + "  :root {\n"@
        + "    /* Semantic mappings - Dark */\n"@
        + all_mapping_lines("    "@, sheet_roles(), ThemeMode::Dark) + "  }\n"@ + "}\n"@
        + "\n[data-theme=\"dark\"] {\n"@ + "  /* Semantic mappings - Dark (manual override) */\n"@
        + all_mapping_lines("  "@, sheet_roles(), ThemeMode::Dark) + "}\n"@
}

/// Generates the complete CSS variable definitions for all color ramps:
/// `:root` definitions for light mode and `@media (prefers-color-scheme: dark)`
/// plus `[data-theme="dark"]` definitions for dark mode.
pub fn generate_css_variables() -> (css: String)
    ensures
        css@ == css_variables_text(),
{
    let roles = vec![
        SemanticRole::Fill,
        SemanticRole::Stroke,
        SemanticRole::Title,
        SemanticRole::Subtitle,
        SemanticRole::TextOnColor,
    ];
    assert(roles@ =~= sheet_roles());
    let mut css = String::new();
    push_str(&mut css, ":root {\n");
    append_value_lines(&mut css);
    push_str(&mut css, "\n  /* Semantic mappings - Light */\n");
    append_mapping_lines(&mut css, "  ", &roles, ThemeMode::Light);
    push_str(&mut css, "}\n\n");
    push_str(&mut css, "@media (prefers-color-scheme: dark) {\n");
    push_str(&mut css, "  :root {\n");
    push_str(&mut css, "    /* Semantic mappings - Dark */\n");
    append_mapping_lines(&mut css, "    ", &roles, ThemeMode::Dark);
    push_str(&mut css, "  }\n");
    push_str(&mut css, "}\n");
    push_str(&mut css, "\n[data-theme=\"dark\"] {\n");
    push_str(&mut css, "  /* Semantic mappings - Dark (manual override) */\n");
    append_mapping_lines(&mut css, "  ", &roles, ThemeMode::Dark);
    push_str(&mut css, "}\n");
    proof {
        assert(css@ =~= css_variables_text());
    }
    css
}

/// Auto mode renders statically as light mode: every role maps to the same
/// stop, and so to the same CSS variable, in both modes.
pub proof fn lemma_auto_renders_as_light(ramp: ColorRamp, role: SemanticRole)
    ensures
        role_stop(role, ThemeMode::Auto) == role_stop(role, ThemeMode::Light),
        css_var_text(ramp, role, ThemeMode::Auto) == css_var_text(ramp, role, ThemeMode::Light),
{
}

/// Dark mode adapts every role drawn on the page background: fill, stroke,
/// title, subtitle, edge, arrow and background each change stop in dark mode.
pub proof fn lemma_dark_differs_from_light(role: SemanticRole)
    requires
        role != SemanticRole::TextOnColor,
    ensures
        role_stop(role, ThemeMode::Dark) != role_stop(role, ThemeMode::Light),
{
}

/// Text on a colored fill takes the same ramp's 800/900 stop in every theme
/// mode, never black.
pub proof fn lemma_text_on_color_uses_deep_stop(theme: ThemeMode)
    ensures
        role_stop(SemanticRole::TextOnColor, theme) == ColorStop::S800 || role_stop(
            SemanticRole::TextOnColor,
            theme,
        ) == ColorStop::S900,
{
}

/// Text on a colored fill is drawn from a stop other than the fill's own stop,
/// in every theme mode, so it stays visible on it.
pub proof fn lemma_text_on_color_differs_from_fill(theme: ThemeMode)
    ensures
        role_stop(SemanticRole::TextOnColor, theme) != role_stop(SemanticRole::Fill, theme),
        role_stop(SemanticRole::Title, theme) != role_stop(SemanticRole::Fill, theme),
{
}

/// Whether `c` is a lowercase hexadecimal digit.
pub open spec fn is_hex_digit(c: char) -> bool {
    ('0' <= c && c <= '9') || ('a' <= c && c <= 'f')
}

/// Whether `s` is a CSS color of the form `#rrggbb`.
pub open spec fn is_hex_color(s: Seq<char>) -> bool {
    &&& s.len() == 7
    &&& s[0] == '#'
    &&& forall|i: int| 1 <= i < 7 ==> is_hex_digit(#[trigger] s[i])
}

/// Every ramp has a color at every stop, written `#rrggbb`.
pub proof fn lemma_stop_values_are_hex_colors(ramp: ColorRamp, stop: ColorStop)
    ensures
        is_hex_color(ramp_stop_value(ramp, stop)),
{
    match (ramp, stop) {
        (ColorRamp::Purple, ColorStop::S50) => reveal_strlit("#faf5ff"),
        (ColorRamp::Purple, ColorStop::S100) => reveal_strlit("#f3e8ff"),
        (ColorRamp::Purple, ColorStop::S200) => reveal_strlit("#e9d5ff"),
        (ColorRamp::Purple, ColorStop::S400) => reveal_strlit("#c084fc"),
        (ColorRamp::Purple, ColorStop::S600) => reveal_strlit("#9333ea"),
        (ColorRamp::Purple, ColorStop::S800) => reveal_strlit("#6b21a8"),
        (ColorRamp::Purple, ColorStop::S900) => reveal_strlit("#3b0764"),
        (ColorRamp::Teal, ColorStop::S50) => reveal_strlit("#f0fdfa"),
        (ColorRamp::Teal, ColorStop::S100) => reveal_strlit("#ccfbf1"),
        (ColorRamp::Teal, ColorStop::S200) => reveal_strlit("#99f6e4"),
        (ColorRamp::Teal, ColorStop::S400) => reveal_strlit("#2dd4bf"),
        (ColorRamp::Teal, ColorStop::S600) => reveal_strlit("#0d9488"),
        (ColorRamp::Teal, ColorStop::S800) => reveal_strlit("#115e59"),
        (ColorRamp::Teal, ColorStop::S900) => reveal_strlit("#042f2e"),
        (ColorRamp::Coral, ColorStop::S50) => reveal_strlit("#fff7ed"),
        (ColorRamp::Coral, ColorStop::S100) => reveal_strlit("#ffedd5"),
        (ColorRamp::Coral, ColorStop::S200) => reveal_strlit("#fed7aa"),
        (ColorRamp::Coral, ColorStop::S400) => reveal_strlit("#fb923c"),
        (ColorRamp::Coral, ColorStop::S600) => reveal_strlit("#ea580c"),
        (ColorRamp::Coral, ColorStop::S800) => reveal_strlit("#9a3412"),
        (ColorRamp::Coral, ColorStop::S900) => reveal_strlit("#431407"),
        (ColorRamp::Pink, ColorStop::S50) => reveal_strlit("#fdf2f8"),
        (ColorRamp::Pink, ColorStop::S100) => reveal_strlit("#fce7f3"),
        (ColorRamp::Pink, ColorStop::S200) => reveal_strlit("#fbcfe8"),
        (ColorRamp::Pink, ColorStop::S400) => reveal_strlit("#f472b6"),
        (ColorRamp::Pink, ColorStop::S600) => reveal_strlit("#db2777"),
        (ColorRamp::Pink, ColorStop::S800) => reveal_strlit("#9d174d"),
        (ColorRamp::Pink, ColorStop::S900) => reveal_strlit("#500724"),
        (ColorRamp::Gray, ColorStop::S50) => reveal_strlit("#f9fafb"),
        (ColorRamp::Gray, ColorStop::S100) => reveal_strlit("#f3f4f6"),
        (ColorRamp::Gray, ColorStop::S200) => reveal_strlit("#e5e7eb"),
        (ColorRamp::Gray, ColorStop::S400) => reveal_strlit("#9ca3af"),
        (ColorRamp::Gray, ColorStop::S600) => reveal_strlit("#4b5563"),
        (ColorRamp::Gray, ColorStop::S800) => reveal_strlit("#1f2937"),
        (ColorRamp::Gray, ColorStop::S900) => reveal_strlit("#030712"),
        (ColorRamp::Blue, ColorStop::S50) => reveal_strlit("#eff6ff"),
        (ColorRamp::Blue, ColorStop::S100) => reveal_strlit("#dbeafe"),
        (ColorRamp::Blue, ColorStop::S200) => reveal_strlit("#bfdbfe"),
        (ColorRamp::Blue, ColorStop::S400) => reveal_strlit("#60a5fa"),
        (ColorRamp::Blue, ColorStop::S600) => reveal_strlit("#2563eb"),
        (ColorRamp::Blue, ColorStop::S800) => reveal_strlit("#1e40af"),
        (ColorRamp::Blue, ColorStop::S900) => reveal_strlit("#172554"),
        (ColorRamp::Green, ColorStop::S50) => reveal_strlit("#f0fdf4"),
        (ColorRamp::Green, ColorStop::S100) => reveal_strlit("#dcfce7"),
        (ColorRamp::Green, ColorStop::S200) => reveal_strlit("#bbf7d0"),
        (ColorRamp::Green, ColorStop::S400) => reveal_strlit("#4ade80"),
        (ColorRamp::Green, ColorStop::S600) => reveal_strlit("#16a34a"),
        (ColorRamp::Green, ColorStop::S800) => reveal_strlit("#166534"),
        (ColorRamp::Green, ColorStop::S900) => reveal_strlit("#052e16"),
        (ColorRamp::Amber, ColorStop::S50) => reveal_strlit("#fffbeb"),
        (ColorRamp::Amber, ColorStop::S100) => reveal_strlit("#fef3c7"),
        (ColorRamp::Amber, ColorStop::S200) => reveal_strlit("#fde68a"),
        (ColorRamp::Amber, ColorStop::S400) => reveal_strlit("#fbbf24"),
        (ColorRamp::Amber, ColorStop::S600) => reveal_strlit("#d97706"),
        (ColorRamp::Amber, ColorStop::S800) => reveal_strlit("#92400e"),
        (ColorRamp::Amber, ColorStop::S900) => reveal_strlit("#451a03"),
        (ColorRamp::Red, ColorStop::S50) => reveal_strlit("#fef2f2"),
        (ColorRamp::Red, ColorStop::S100) => reveal_strlit("#fee2e2"),
        (ColorRamp::Red, ColorStop::S200) => reveal_strlit("#fecaca"),
        (ColorRamp::Red, ColorStop::S400) => reveal_strlit("#f87171"),
        (ColorRamp::Red, ColorStop::S600) => reveal_strlit("#dc2626"),
        (ColorRamp::Red, ColorStop::S800) => reveal_strlit("#991b1b"),
        (ColorRamp::Red, ColorStop::S900) => reveal_strlit("#450a0a"),
    }
}

/// Every ramp is listed in `ramp_order`.
pub proof fn lemma_ramp_listed(ramp: ColorRamp) -> (k: int)
    ensures
        0 <= k < ramp_order().len(),
        ramp_order()[k] == ramp,
{
    match ramp {
        ColorRamp::Purple => 0,
        ColorRamp::Teal => 1,
        ColorRamp::Coral => 2,
        ColorRamp::Pink => 3,
        ColorRamp::Gray => 4,
        ColorRamp::Blue => 5,
        ColorRamp::Green => 6,
        ColorRamp::Amber => 7,
        ColorRamp::Red => 8,
    }
}

/// Every stop is listed in `stop_order`.
pub proof fn lemma_stop_listed(stop: ColorStop) -> (k: int)
    ensures
        0 <= k < stop_order().len(),
        stop_order()[k] == stop,
{
    match stop {
        ColorStop::S50 => 0,
        ColorStop::S100 => 1,
        ColorStop::S200 => 2,
        ColorStop::S400 => 3,
        ColorStop::S600 => 4,
        ColorStop::S800 => 5,
        ColorStop::S900 => 6,
    }
}

/// The value line of every ramp and stop occurs in `all_value_lines`.
pub proof fn lemma_value_line_listed(ramp: ColorRamp, stop: ColorStop)
    ensures
        holds(all_value_lines(), value_line(ramp, stop)),
{
    let k = lemma_ramp_listed(ramp);
    let j = lemma_stop_listed(stop);
    lemma_holds_in_concat_map(ramp_order(), value_lines_of(), k);
    lemma_holds_in_concat_map(stop_order(), value_line_of(ramp), j);
    lemma_holds_trans(all_value_lines(), ramp_value_lines(ramp), value_line(ramp, stop));
}

/// The mapping line of every ramp and every listed role occurs in
/// `all_mapping_lines`.
pub proof fn lemma_mapping_line_listed(
    indent: Seq<char>,
    roles: Seq<SemanticRole>,
    theme: ThemeMode,
    ramp: ColorRamp,
    role: SemanticRole,
)
    requires
        roles.contains(role),
    ensures
        holds(all_mapping_lines(indent, roles, theme), mapping_line(indent, ramp, role, theme)),
{
    let k = lemma_ramp_listed(ramp);
    let j = choose|j: int| 0 <= j < roles.len() && roles[j] == role;
    lemma_holds_in_concat_map(ramp_order(), mapping_lines_of(indent, roles, theme), k);
    lemma_holds_in_concat_map(roles, mapping_line_of(indent, ramp, theme), j);
    lemma_holds_trans(
        all_mapping_lines(indent, roles, theme),
        ramp_mapping_lines(indent, ramp, roles, theme),
        mapping_line(indent, ramp, role, theme),
    );
}

/// The light part of the variable sheet: everything before its `@media` line.
pub open spec fn sheet_light_part() -> Seq<char> {
    ":root {\n"@ + all_value_lines() + "\n  /* Semantic mappings - Light */\n"@
        + all_mapping_lines("  "@, sheet_roles(), ThemeMode::Light) + "}\n\n"@
}

/// The dark part of the variable sheet: everything after its `@media` line.
pub open spec fn sheet_dark_part() -> Seq<char> {
    "  :root {\n"@ + "    /* Semantic mappings - Dark */\n"@
        + all_mapping_lines("    "@, sheet_roles(), ThemeMode::Dark) + "  }\n"@ + "}\n"@
        + "\n[data-theme=\"dark\"] {\n"@ + "  /* Semantic mappings - Dark (manual override) */\n"@
        + all_mapping_lines("  "@, sheet_roles(), ThemeMode::Dark) + "}\n"@
}

/// The variable sheet defines the value of every ramp at every stop and, for
/// the fill, stroke, title, subtitle and text-on-color roles, maps each
/// ramp's role variable to its light-mode stop before the `@media` line and
/// to its dark-mode stop after it, both in the media query and in the
/// manual dark override.
#[verifier::spinoff_prover]
pub proof fn lemma_sheet_layout(ramp: ColorRamp, stop: ColorStop, role: SemanticRole)
    requires
        sheet_roles().contains(role),
    ensures
        css_variables_text() == sheet_light_part() + "@media (prefers-color-scheme: dark) {\n"@
            + sheet_dark_part(),
        holds(sheet_light_part(), value_line(ramp, stop)),
        holds(sheet_light_part(), mapping_line("  "@, ramp, role, ThemeMode::Light)),
        holds(sheet_dark_part(), mapping_line("    "@, ramp, role, ThemeMode::Dark)),
        holds(sheet_dark_part(), mapping_line("  "@, ramp, role, ThemeMode::Dark)),
{
    assert(css_variables_text() =~= sheet_light_part() + "@media (prefers-color-scheme: dark) {\n"@
        + sheet_dark_part());
    let vals = all_value_lines();
    let light = all_mapping_lines("  "@, sheet_roles(), ThemeMode::Light);
    let dark_media = all_mapping_lines("    "@, sheet_roles(), ThemeMode::Dark);
    let dark_manual = all_mapping_lines("  "@, sheet_roles(), ThemeMode::Dark);
    lemma_value_line_listed(ramp, stop);
    lemma_mapping_line_listed("  "@, sheet_roles(), ThemeMode::Light, ramp, role);
    lemma_mapping_line_listed("    "@, sheet_roles(), ThemeMode::Dark, ramp, role);
    lemma_mapping_line_listed("  "@, sheet_roles(), ThemeMode::Dark, ramp, role);
    let x = value_line(ramp, stop);
    lemma_holds_extend(":root {\n"@, vals, x);
    lemma_holds_extend(":root {\n"@ + vals, "\n  /* Semantic mappings - Light */\n"@, x);
    lemma_holds_extend(":root {\n"@ + vals + "\n  /* Semantic mappings - Light */\n"@, light, x);
    lemma_holds_extend(
        ":root {\n"@ + vals + "\n  /* Semantic mappings - Light */\n"@ + light,
        "}\n\n"@,
        x,
    );
    let y = mapping_line("  "@, ramp, role, ThemeMode::Light);
    lemma_holds_extend(":root {\n"@ + vals + "\n  /* Semantic mappings - Light */\n"@, light, y);
    lemma_holds_extend(
        ":root {\n"@ + vals + "\n  /* Semantic mappings - Light */\n"@ + light,
        "}\n\n"@,
        y,
    );
    let z = mapping_line("    "@, ramp, role, ThemeMode::Dark);
    let d0 = "  :root {\n"@ + "    /* Semantic mappings - Dark */\n"@;
    lemma_holds_extend(d0, dark_media, z);
    lemma_holds_extend(d0 + dark_media, "  }\n"@, z);
    lemma_holds_extend(d0 + dark_media + "  }\n"@, "}\n"@, z);
    lemma_holds_extend(d0 + dark_media + "  }\n"@ + "}\n"@, "\n[data-theme=\"dark\"] {\n"@, z);
    let d1 = d0 + dark_media + "  }\n"@ + "}\n"@ + "\n[data-theme=\"dark\"] {\n"@;
    lemma_holds_extend(d1, "  /* Semantic mappings - Dark (manual override) */\n"@, z);
    let d2 = d1 + "  /* Semantic mappings - Dark (manual override) */\n"@;
    lemma_holds_extend(d2, dark_manual, z);
    lemma_holds_extend(d2 + dark_manual, "}\n"@, z);
    let w = mapping_line("  "@, ramp, role, ThemeMode::Dark);
    lemma_holds_extend(d2, dark_manual, w);
    lemma_holds_extend(d2 + dark_manual, "}\n"@, w);
}

/// The roles the variable sheet maps, named one by one: each of fill,
/// stroke, title, subtitle and text-on-color gets, for every ramp, its light
/// mapping before the `@media` line and its dark mappings after it.
pub proof fn lemma_sheet_maps_named_roles(ramp: ColorRamp, stop: ColorStop, role: SemanticRole)
    requires
        role == SemanticRole::Fill || role == SemanticRole::Stroke || role == SemanticRole::Title
            || role == SemanticRole::Subtitle || role == SemanticRole::TextOnColor,
    ensures
        css_variables_text() == sheet_light_part() + "@media (prefers-color-scheme: dark) {\n"@
            + sheet_dark_part(),
        holds(sheet_light_part(), value_line(ramp, stop)),
        holds(sheet_light_part(), mapping_line("  "@, ramp, role, ThemeMode::Light)),
        holds(sheet_dark_part(), mapping_line("    "@, ramp, role, ThemeMode::Dark)),
        holds(sheet_dark_part(), mapping_line("  "@, ramp, role, ThemeMode::Dark)),
{
    let k: int = if role == SemanticRole::Fill {
        0
    } else if role == SemanticRole::Stroke {
        1
    } else if role == SemanticRole::Title {
        2
    } else if role == SemanticRole::Subtitle {
        3
    } else {
        4
    };
    assert(sheet_roles()[k] == role);
    lemma_sheet_layout(ramp, stop, role);
}

/// Edges, arrow heads and subtitles take the stroke's stop in every theme
/// mode, so an arrow head has the color of its edge line and of node borders.
pub proof fn lemma_lines_share_stroke_stop(ramp: ColorRamp, theme: ThemeMode)
    ensures
        role_stop(SemanticRole::Arrow, theme) == role_stop(SemanticRole::Stroke, theme),
        role_stop(SemanticRole::Edge, theme) == role_stop(SemanticRole::Stroke, theme),
        role_stop(SemanticRole::Subtitle, theme) == role_stop(SemanticRole::Stroke, theme),
        css_var_text(ramp, SemanticRole::Arrow, theme) == css_var_text(ramp, SemanticRole::Edge, theme),
{
}

/// The theme table: in light (and auto) mode fill 50, stroke 600, title 800,
/// subtitle 600; in dark mode fill 800, stroke 200, title 100, subtitle 200;
/// the background follows the fill.
pub proof fn lemma_theme_table(theme: ThemeMode)
    ensures
        role_stop(SemanticRole::Fill, theme) == if theme == ThemeMode::Dark {
            ColorStop::S800
        } else {
            ColorStop::S50
        },
        role_stop(SemanticRole::Stroke, theme) == if theme == ThemeMode::Dark {
            ColorStop::S200
        } else {
            ColorStop::S600
        },
        role_stop(SemanticRole::Title, theme) == if theme == ThemeMode::Dark {
            ColorStop::S100
        } else {
            ColorStop::S800
        },
        role_stop(SemanticRole::Subtitle, theme) == if theme == ThemeMode::Dark {
            ColorStop::S200
        } else {
            ColorStop::S600
        },
        role_stop(SemanticRole::Background, theme) == role_stop(SemanticRole::Fill, theme),
{
}

} // verus!
