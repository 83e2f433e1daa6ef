//! Container markup: a dashed background rectangle with its label, grouped
//! with the already rendered children. Coordinates arrive written out.
use vstd::prelude::*;

use crate::svg::elements::text::{container_label_markup, label_text};
use crate::svg::tokens::{
    color_class, color_class_text, css_var, css_var_text, ColorRamp, SemanticRole, ThemeMode,
};
use crate::textseq::push_str;

verus! {

/// The background `<rect>` of a container: subtle corners, classes
/// `<prefix> dm-<ramp>-fill dm-<ramp>-stroke dm-container` and a dashed
/// 0.5px stroke.
pub open spec fn container_rect_text(
    x: Seq<char>,
    y: Seq<char>,
    width: Seq<char>,
    height: Seq<char>,
    color: ColorRamp,
    theme: ThemeMode,
    prefix: Seq<char>,
) -> Seq<char> {
    "<rect x=\""@ + x + "\" y=\""@ + y + "\" width=\""@ + width + "\" height=\""@ + height
        + "\" rx=\"4\" class=\""@ + prefix + " "@ + color_class_text(color, SemanticRole::Fill) + " "@
        + color_class_text(color, SemanticRole::Stroke) + " dm-container\" style=\"fill: "@
        + css_var_text(color, SemanticRole::Fill, theme) + "; stroke: "@ + css_var_text(
        color,
        SemanticRole::Stroke,
        theme,
    ) + "; stroke-width: 0.5; stroke-dasharray: 2,2\"/>"@
}

/// The group of a container: its background, its label and its children.
pub open spec fn container_text(
    x: Seq<char>,
    y: Seq<char>,
    width: Seq<char>,
    height: Seq<char>,
    label: Seq<char>,
    label_x: Seq<char>,
    label_y: Seq<char>,
    color: ColorRamp,
    theme: ThemeMode,
    prefix: Seq<char>,
    children: Seq<char>,
) -> Seq<char> {
    "<g class=\"dm-container-group\">"@ + container_rect_text(x, y, width, height, color, theme, prefix)
        + label_text(label, label_x, label_y, color, theme, "dm-container-label"@, 14) + children
        + "</g>"@
}

/// Renders the background rectangle of a container.
fn container_rect(
    x: &str,
    y: &str,
    width: &str,
    height: &str,
    color: ColorRamp,
    theme: ThemeMode,
    prefix: &str,
) -> (r: String)
    ensures
        r@ == container_rect_text(x@, y@, width@, height@, color, theme, prefix@),
{
    let fill_class = color_class(color, SemanticRole::Fill);
    let stroke_class = color_class(color, SemanticRole::Stroke);
    let fill = css_var(color, SemanticRole::Fill, theme);
    let stroke = css_var(color, SemanticRole::Stroke, theme);
    let mut out = String::new();
    push_str(&mut out, "<rect x=\"");
    push_str(&mut out, x);
    push_str(&mut out, "\" y=\"");
    push_str(&mut out, y);
    push_str(&mut out, "\" width=\"");
    push_str(&mut out, width);
    push_str(&mut out, "\" height=\"");
    push_str(&mut out, height);
    push_str(&mut out, "\" rx=\"4\" class=\"");
    push_str(&mut out, prefix);
    push_str(&mut out, " ");
    push_str(&mut out, fill_class.as_str());
    push_str(&mut out, " ");
    push_str(&mut out, stroke_class.as_str());
    push_str(&mut out, " dm-container\" style=\"fill: ");
    push_str(&mut out, fill.as_str());
    push_str(&mut out, "; stroke: ");
    push_str(&mut out, stroke.as_str());
    push_str(&mut out, "; stroke-width: 0.5; stroke-dasharray: 2,2\"/>");
    proof {
        assert(out@ =~= container_rect_text(x@, y@, width@, height@, color, theme, prefix@));
    }
    out
}

/// Renders a container with its pre-rendered children.
pub fn container_markup(
    x: &str,
    y: &str,
    width: &str,
    height: &str,
    label: &str,
    label_x: &str,
    label_y: &str,
    color: ColorRamp,
    theme: ThemeMode,
    prefix: &str,
    children: &str,
) -> (r: String)
    ensures
        r@ == container_text(
            x@,
            y@,
            width@,
            height@,
            label@,
            label_x@,
            label_y@,
            color,
            theme,
            prefix@,
            children@,
        ),
{
    let rect = container_rect(x, y, width, height, color, theme, prefix);
    let label_svg = container_label_markup(label, label_x, label_y, color, theme);
    let mut out = String::new();
    push_str(&mut out, "<g class=\"dm-container-group\">");
    push_str(&mut out, rect.as_str());
    push_str(&mut out, label_svg.as_str());
    push_str(&mut out, children);
    push_str(&mut out, "</g>");
    proof {
        assert(out@ =~= container_text(
            x@,
            y@,
            width@,
            height@,
            label@,
            label_x@,
            label_y@,
            color,
            theme,
            prefix@,
            children@,
        ));
    }
    out
}

/// A container's group opens with its background rectangle, right after the
/// group tag, and closes with the children, right before `</g>`, the label in
/// between: every child is drawn on top of the background and the label.
pub proof fn lemma_container_children_on_top(
    x: Seq<char>,
    y: Seq<char>,
    width: Seq<char>,
    height: Seq<char>,
    label: Seq<char>,
    label_x: Seq<char>,
    label_y: Seq<char>,
    color: ColorRamp,
    theme: ThemeMode,
    prefix: Seq<char>,
    children: Seq<char>,
)
    ensures
        ({
            let g = container_text(
                x,
                y,
                width,
                height,
                label,
                label_x,
                label_y,
                color,
                theme,
                prefix,
                children,
            );
            let open = "<g class=\"dm-container-group\">"@;
            let rect = container_rect_text(x, y, width, height, color, theme, prefix);
            let lab = label_text(label, label_x, label_y, color, theme, "dm-container-label"@, 14);
            &&& g.len() == open.len() + rect.len() + lab.len() + children.len() + 4
            &&& g.subrange(0, open.len() as int) == open
            &&& g.subrange(open.len() as int, (open.len() + rect.len()) as int) == rect
            &&& g.subrange((open.len() + rect.len()) as int, (open.len() + rect.len() + lab.len()) as int) == lab
            &&& g.subrange(g.len() - children.len() - 4, g.len() - 4) == children
            &&& g.subrange(g.len() - 4, g.len() as int) == "</g>"@
        }),
{
    reveal_strlit("</g>");
    let g = container_text(x, y, width, height, label, label_x, label_y, color, theme, prefix, children);
    let open = "<g class=\"dm-container-group\">"@;
    let rect = container_rect_text(x, y, width, height, color, theme, prefix);
    let lab = label_text(label, label_x, label_y, color, theme, "dm-container-label"@, 14);
    assert(g == open + rect + lab + children + "</g>"@);
    assert(g.subrange(0, open.len() as int) =~= open);
    assert(g.subrange(open.len() as int, (open.len() + rect.len()) as int) =~= rect);
    assert(g.subrange((open.len() + rect.len()) as int, (open.len() + rect.len() + lab.len()) as int) =~= lab);
    assert(g.subrange(g.len() - children.len() - 4, g.len() - 4) =~= children);
    assert(g.subrange(g.len() - 4, g.len() as int) =~= "</g>"@);
}

} // verus!
