//! Node shape markup (rect, pill, diamond, circle) with the node's title and
//! subtitle. Every coordinate arrives already written out as decimal text.
use vstd::prelude::*;

use crate::model::Node;
use crate::svg::elements::text::{label_on_color_markup, on_color_label_text};
use crate::svg::theme::StyleMode;
use crate::svg::tokens::{
    color_class, color_class_text, css_var, css_var_text, ColorRamp, SemanticRole, ThemeMode,
};
use crate::textseq::{holds, lemma_holds_extend, lemma_holds_mid, push_str};

verus! {

/// Font size of a node title.
pub const TITLE_SIZE: u32 = 14;

/// Font size of a node subtitle.
pub const SUBTITLE_SIZE: u32 = 12;

/// The class and style attributes of a node shape: classes
/// `<prefix> dm-<ramp>-fill dm-<ramp>-stroke`, and in inline mode the fill and
/// stroke variables with a 0.5px stroke.
pub open spec fn shape_paint_text(
    color: ColorRamp,
    theme: ThemeMode,
    prefix: Seq<char>,
    mode: StyleMode,
) -> Seq<char> {
    " class=\""@ + prefix + " "@ + color_class_text(color, SemanticRole::Fill) + " "@
        + color_class_text(color, SemanticRole::Stroke) + "\""@ + if mode == StyleMode::Inline {
        " style=\"fill: "@ + css_var_text(color, SemanticRole::Fill, theme) + "; stroke: "@
            + css_var_text(color, SemanticRole::Stroke, theme) + "; stroke-width: 0.5\""@
    } else {
        Seq::empty()
    }
}

/// Renders the class and style attributes of a node shape.
pub fn shape_paint(color: ColorRamp, theme: ThemeMode, prefix: &str, mode: StyleMode) -> (r: String)
    ensures
        r@ == shape_paint_text(color, theme, prefix@, mode),
{
    let fill_class = color_class(color, SemanticRole::Fill);
    let stroke_class = color_class(color, SemanticRole::Stroke);
    let mut out = String::new();
    push_str(&mut out, " class=\"");
    push_str(&mut out, prefix);
    push_str(&mut out, " ");
    push_str(&mut out, fill_class.as_str());
    push_str(&mut out, " ");
    push_str(&mut out, stroke_class.as_str());
    push_str(&mut out, "\"");
    if mode.is_inline() {
        let fill = css_var(color, SemanticRole::Fill, theme);
        let stroke = css_var(color, SemanticRole::Stroke, theme);
        push_str(&mut out, " style=\"fill: ");
        push_str(&mut out, fill.as_str());
        push_str(&mut out, "; stroke: ");
        push_str(&mut out, stroke.as_str());
        push_str(&mut out, "; stroke-width: 0.5\"");
    }
    proof {
        assert(out@ =~= shape_paint_text(color, theme, prefix@, mode));
    }
    out
}

/// The title, and the subtitle where the node has one, centred at `center_x`.
pub open spec fn node_text_text(
    node: Node,
    center_x: Seq<char>,
    title_y: Seq<char>,
    subtitle_y: Seq<char>,
    theme: ThemeMode,
    mode: StyleMode,
) -> Seq<char> {
    on_color_label_text(
        node.label@,
        center_x,
        title_y,
        node.color,
        theme,
        "dm-node-title"@,
        TITLE_SIZE as nat,
        mode,
    ) + match node.subtitle {
        Some(sub) => on_color_label_text(
            sub@,
            center_x,
            subtitle_y,
            node.color,
            theme,
            "dm-node-subtitle"@,
            SUBTITLE_SIZE as nat,
            mode,
        ),
        None => Seq::empty(),
    }
}

/// Renders the text of a node: its title, then its subtitle if it has one.
pub fn node_text_markup(
    node: &Node,
    center_x: &str,
    title_y: &str,
    subtitle_y: &str,
    theme: ThemeMode,
    mode: StyleMode,
) -> (r: String)
    ensures
        r@ == node_text_text(*node, center_x@, title_y@, subtitle_y@, theme, mode),
{
    let mut out = label_on_color_markup(
        node.label.as_str(),
        center_x,
        title_y,
        node.color,
        theme,
        "dm-node-title",
        TITLE_SIZE,
        mode,
    );
    match &node.subtitle {
        Some(sub) => {
            let line = label_on_color_markup(
                sub.as_str(),
                center_x,
                subtitle_y,
                node.color,
                theme,
                "dm-node-subtitle",
                SUBTITLE_SIZE,
                mode,
            );
            push_str(&mut out, line.as_str());
        },
        None => {},
    }
    proof {
        assert(out@ =~= node_text_text(*node, center_x@, title_y@, subtitle_y@, theme, mode));
    }
    out
}

/// The `<rect>` of a node with the written-out box and corner radius.
pub open spec fn rect_text(
    node: Node,
    x: Seq<char>,
    y: Seq<char>,
    width: Seq<char>,
    height: Seq<char>,
    rx: Seq<char>,
    theme: ThemeMode,
    prefix: Seq<char>,
    mode: StyleMode,
) -> Seq<char> {
    "<rect x=\""@ + x + "\" y=\""@ + y + "\" width=\""@ + width + "\" height=\""@ + height
        + "\" rx=\""@ + rx + "\""@ + shape_paint_text(node.color, theme, prefix, mode) + "/>"@
}

/// Renders the rectangle of a node; a pill is a rectangle whose corner radius
/// is half its height.
pub fn rect_markup(
    node: &Node,
    x: &str,
    y: &str,
    width: &str,
    height: &str,
    rx: &str,
    theme: ThemeMode,
    prefix: &str,
    mode: StyleMode,
) -> (r: String)
    ensures
        r@ == rect_text(*node, x@, y@, width@, height@, rx@, theme, prefix@, mode),
{
    let paint = shape_paint(node.color, theme, prefix, mode);
    let mut out = String::new();
    push_str(&mut out, "<rect x=\"");
    push_str(&mut out, x);
    push_str(&mut out, "\" y=\"");
    push_str(&mut out, y);
    push_str(&mut out, "\" width=\"");
    push_str(&mut out, width);
    push_str(&mut out, "\" height=\"");
    push_str(&mut out, height);
    push_str(&mut out, "\" rx=\"");
    push_str(&mut out, rx);
    push_str(&mut out, "\"");
    push_str(&mut out, paint.as_str());
    push_str(&mut out, "/>");
    proof {
        assert(out@ =~= rect_text(*node, x@, y@, width@, height@, rx@, theme, prefix@, mode));
    }
    out
}

/// The `<polygon>` of a diamond node with the written-out corner points.
pub open spec fn polygon_text(
    node: Node,
    points: Seq<char>,
    theme: ThemeMode,
    prefix: Seq<char>,
    mode: StyleMode,
) -> Seq<char> {
    "<polygon points=\""@ + points + "\""@ + shape_paint_text(node.color, theme, prefix, mode)
        + "/>"@
}

/// Renders the polygon of a diamond node.
pub fn polygon_markup(
    node: &Node,
    points: &str,
    theme: ThemeMode,
    prefix: &str,
    mode: StyleMode,
) -> (r: String)
    ensures
        r@ == polygon_text(*node, points@, theme, prefix@, mode),
{
    let paint = shape_paint(node.color, theme, prefix, mode);
    let mut out = String::new();
    push_str(&mut out, "<polygon points=\"");
    push_str(&mut out, points);
    push_str(&mut out, "\"");
    push_str(&mut out, paint.as_str());
    push_str(&mut out, "/>");
    proof {
        assert(out@ =~= polygon_text(*node, points@, theme, prefix@, mode));
    }
    out
}

/// The `<ellipse>` of a circular node with the written-out centre and radii.
pub open spec fn ellipse_text(
    node: Node,
    cx: Seq<char>,
    cy: Seq<char>,
    rx: Seq<char>,
    ry: Seq<char>,
    theme: ThemeMode,
    prefix: Seq<char>,
    mode: StyleMode,
) -> Seq<char> {
    "<ellipse cx=\""@ + cx + "\" cy=\""@ + cy + "\" rx=\""@ + rx + "\" ry=\""@ + ry + "\""@
        + shape_paint_text(node.color, theme, prefix, mode) + "/>"@
}

/// Renders the ellipse of a circular node.
pub fn ellipse_markup(
    node: &Node,
    cx: &str,
    cy: &str,
    rx: &str,
    ry: &str,
    theme: ThemeMode,
    prefix: &str,
    mode: StyleMode,
) -> (r: String)
    ensures
        r@ == ellipse_text(*node, cx@, cy@, rx@, ry@, theme, prefix@, mode),
{
    let paint = shape_paint(node.color, theme, prefix, mode);
    let mut out = String::new();
    push_str(&mut out, "<ellipse cx=\"");
    push_str(&mut out, cx);
    push_str(&mut out, "\" cy=\"");
    push_str(&mut out, cy);
    push_str(&mut out, "\" rx=\"");
    push_str(&mut out, rx);
    push_str(&mut out, "\" ry=\"");
    push_str(&mut out, ry);
    push_str(&mut out, "\"");
    push_str(&mut out, paint.as_str());
    push_str(&mut out, "/>");
    proof {
        assert(out@ =~= ellipse_text(*node, cx@, cy@, rx@, ry@, theme, prefix@, mode));
    }
    out
}

/// The class part of a shape's paint: the prefix, then the ramp's fill and
/// stroke classes.
pub open spec fn shape_classes(color: ColorRamp, prefix: Seq<char>) -> Seq<char> {
    " class=\""@ + prefix + " "@ + color_class_text(color, SemanticRole::Fill) + " "@
        + color_class_text(color, SemanticRole::Stroke) + "\""@
}

/// A shape's paint is its classes, and in inline mode a style that fills
/// with the fill variable and strokes with the stroke variable of the
/// requested theme, with a 0.5px stroke; in class-only mode nothing more.
pub proof fn lemma_shape_paint(color: ColorRamp, theme: ThemeMode, prefix: Seq<char>, mode: StyleMode)
    ensures
        mode == StyleMode::ClassOnly ==> shape_paint_text(color, theme, prefix, mode)
            == shape_classes(color, prefix),
        mode == StyleMode::Inline ==> shape_paint_text(color, theme, prefix, mode) == shape_classes(
            color,
            prefix,
        ) + " style=\""@ + ("fill: "@ + css_var_text(color, SemanticRole::Fill, theme)) + "; "@ + (
        "stroke: "@ + css_var_text(color, SemanticRole::Stroke, theme)) + "; stroke-width: 0.5\""@,
        mode == StyleMode::Inline ==> holds(
            shape_paint_text(color, theme, prefix, mode),
            "fill: "@ + css_var_text(color, SemanticRole::Fill, theme),
        ),
        mode == StyleMode::Inline ==> holds(
            shape_paint_text(color, theme, prefix, mode),
            "stroke: "@ + css_var_text(color, SemanticRole::Stroke, theme),
        ),
{
    let c = shape_classes(color, prefix);
    let f = "fill: "@ + css_var_text(color, SemanticRole::Fill, theme);
    let k = "stroke: "@ + css_var_text(color, SemanticRole::Stroke, theme);
    if mode == StyleMode::Inline {
        reveal_strlit("; stroke: ");
        reveal_strlit("; ");
        reveal_strlit("stroke: ");
        reveal_strlit(" style=\"fill: ");
        reveal_strlit(" style=\"");
        reveal_strlit("fill: ");
        assert(shape_paint_text(color, theme, prefix, mode) =~= c + " style=\""@ + f + "; "@ + k
            + "; stroke-width: 0.5\""@);
        lemma_holds_mid(c + " style=\""@, f, "; "@ + k + "; stroke-width: 0.5\""@);
        assert(c + " style=\""@ + f + ("; "@ + k + "; stroke-width: 0.5\""@) =~= c + " style=\""@ + f
            + "; "@ + k + "; stroke-width: 0.5\""@);
        lemma_holds_mid(c + " style=\""@ + f + "; "@, k, "; stroke-width: 0.5\""@);
    } else {
        assert(shape_paint_text(color, theme, prefix, mode) =~= c);
    }
}

/// Every node shape is painted alike, for the requested theme: the rect, the
/// diamond's polygon and the ellipse each end with the same paint, that of
/// the node's ramp in `theme`, and in inline mode each holds that theme's
/// fill and stroke variables.
pub proof fn lemma_shapes_painted_for_theme(
    node: Node,
    x: Seq<char>,
    y: Seq<char>,
    width: Seq<char>,
    height: Seq<char>,
    rx: Seq<char>,
    points: Seq<char>,
    ry: Seq<char>,
    theme: ThemeMode,
    prefix: Seq<char>,
    mode: StyleMode,
)
    ensures
        rect_text(node, x, y, width, height, rx, theme, prefix, mode) == "<rect x=\""@ + x + "\" y=\""@
            + y + "\" width=\""@ + width + "\" height=\""@ + height + "\" rx=\""@ + rx + "\""@
            + shape_paint_text(node.color, theme, prefix, mode) + "/>"@,
        polygon_text(node, points, theme, prefix, mode) == "<polygon points=\""@ + points + "\""@
            + shape_paint_text(node.color, theme, prefix, mode) + "/>"@,
        ellipse_text(node, x, y, rx, ry, theme, prefix, mode) == "<ellipse cx=\""@ + x + "\" cy=\""@ + y
            + "\" rx=\""@ + rx + "\" ry=\""@ + ry + "\""@ + shape_paint_text(node.color, theme, prefix, mode)
            + "/>"@,
        mode == StyleMode::Inline ==> holds(
            polygon_text(node, points, theme, prefix, mode),
            "fill: "@ + css_var_text(node.color, SemanticRole::Fill, theme),
        ) && holds(
            polygon_text(node, points, theme, prefix, mode),
            "stroke: "@ + css_var_text(node.color, SemanticRole::Stroke, theme),
        ) && holds(
            rect_text(node, x, y, width, height, rx, theme, prefix, mode),
            "fill: "@ + css_var_text(node.color, SemanticRole::Fill, theme),
        ) && holds(
            ellipse_text(node, x, y, rx, ry, theme, prefix, mode),
            "fill: "@ + css_var_text(node.color, SemanticRole::Fill, theme),
        ),
{
    let p = shape_paint_text(node.color, theme, prefix, mode);
    lemma_shape_paint(node.color, theme, prefix, mode);
    if mode == StyleMode::Inline {
        let f = "fill: "@ + css_var_text(node.color, SemanticRole::Fill, theme);
        let k = "stroke: "@ + css_var_text(node.color, SemanticRole::Stroke, theme);
        let pa = "<polygon points=\""@ + points + "\""@;
        lemma_holds_extend(pa, p, f);
        lemma_holds_extend(pa + p, "/>"@, f);
        lemma_holds_extend(pa, p, k);
        lemma_holds_extend(pa + p, "/>"@, k);
        let ra = "<rect x=\""@ + x + "\" y=\""@ + y + "\" width=\""@ + width + "\" height=\""@ + height
            + "\" rx=\""@ + rx + "\""@;
        lemma_holds_extend(ra, p, f);
        lemma_holds_extend(ra + p, "/>"@, f);
        let ea = "<ellipse cx=\""@ + x + "\" cy=\""@ + y + "\" rx=\""@ + rx + "\" ry=\""@ + ry + "\""@;
        lemma_holds_extend(ea, p, f);
        lemma_holds_extend(ea + p, "/>"@, f);
    }
}

/// A node's text is its title at 14px at the title baseline, followed, when
/// the node has a subtitle, by the subtitle at 12px at the subtitle
/// baseline, both centred at `center_x` and drawn on the node's own ramp.
pub proof fn lemma_node_text_lines(
    node: Node,
    center_x: Seq<char>,
    title_y: Seq<char>,
    subtitle_y: Seq<char>,
    theme: ThemeMode,
    mode: StyleMode,
)
    ensures
        node.subtitle is None ==> node_text_text(node, center_x, title_y, subtitle_y, theme, mode)
            == on_color_label_text(node.label@, center_x, title_y, node.color, theme, "dm-node-title"@, 14, mode),
        node.subtitle is Some ==> node_text_text(node, center_x, title_y, subtitle_y, theme, mode)
            == on_color_label_text(node.label@, center_x, title_y, node.color, theme, "dm-node-title"@, 14, mode)
            + on_color_label_text(
            node.subtitle.unwrap()@,
            center_x,
            subtitle_y,
            node.color,
            theme,
            "dm-node-subtitle"@,
            12,
            mode,
        ),
{
    if node.subtitle is None {
        assert(node_text_text(node, center_x, title_y, subtitle_y, theme, mode) =~= on_color_label_text(
            node.label@,
            center_x,
            title_y,
            node.color,
            theme,
            "dm-node-title"@,
            14,
            mode,
        ));
    }
}

} // verus!
