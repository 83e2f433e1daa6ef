//! Edge markup: unfilled paths with a 0.5px stroke, open chevron arrow heads
//! and edge labels. Every point arrives already written out as decimal text.
use vstd::prelude::*;

use crate::svg::elements::text::{label_markup, label_text};
use crate::svg::tokens::{
    color_class, color_class_text, css_var, css_var_text, ColorRamp, SemanticRole, ThemeMode,
};
use crate::textseq::{holds, lemma_holds_mid, push_str};

verus! {

/// A written-out point `x,y`.
pub open spec fn point_text(p: (String, String)) -> Seq<char> {
    p.0@ + ","@ + p.1@
}

/// SVG path data through `points`: `M` to the first point, then `L` to each
/// following one; empty for no points.
pub open spec fn path_data_text(points: Seq<(String, String)>) -> Seq<char>
    decreases points.len(),
{
    if points.len() == 0 {
        Seq::empty()
    } else if points.len() == 1 {
        "M "@ + point_text(points[0])
    } else {
        path_data_text(points.drop_last()) + " L "@ + point_text(points.last())
    }
}

/// Builds SVG path data from a series of written-out points.
pub fn path_data(points: &Vec<(String, String)>) -> (r: String)
    ensures
        r@ == path_data_text(points@),
{
    let mut out = String::new();
    let mut i: usize = 0;
    while i < points.len()
        invariant
            0 <= i <= points@.len(),
            out@ == path_data_text(points@.take(i as int)),
        decreases points@.len() - i,
    {
        let p = &points[i];
        if i == 0 {
            push_str(&mut out, "M ");
        } else {
            push_str(&mut out, " L ");
        }
        push_str(&mut out, p.0.as_str());
        push_str(&mut out, ",");
        push_str(&mut out, p.1.as_str());
        proof {
            assert(points@.take(i + 1).drop_last() =~= points@.take(i as int));
            assert(points@.take(i + 1).last() == points@[i as int]);
            if i == 0 {
                assert(points@.take(1)[0] == points@[0]);
            }
            assert(out@ =~= path_data_text(points@.take(i + 1)));
        }
        i += 1;
    }
    proof {
        assert(points@.take(points@.len() as int) =~= points@);
    }
    out
}

/// An unfilled stroked `<path>` with the classes `<prefix> dm-<ramp>-<role>
/// <kind>` and the role's stroke variable.
pub open spec fn stroke_path_text(
    data: Seq<char>,
    color: ColorRamp,
    role: SemanticRole,
    kind: Seq<char>,
    theme: ThemeMode,
    prefix: Seq<char>,
) -> Seq<char> {
    "<path d=\""@ + data + "\" fill=\"none\" class=\""@ + prefix + " "@ + color_class_text(color, role)
        + " "@ + kind + "\" style=\"fill: none; stroke: "@ + css_var_text(color, role, theme)
        + "; stroke-width: 0.5\"/>"@
}

/// Renders an unfilled stroked path in the color of `role`.
fn stroke_path(
    data: &str,
    color: ColorRamp,
    role: SemanticRole,
    kind: &str,
    theme: ThemeMode,
    prefix: &str,
) -> (r: String)
    ensures
        r@ == stroke_path_text(data@, color, role, kind@, theme, prefix@),
{
    let class = color_class(color, role);
    let var = css_var(color, role, theme);
    let mut out = String::new();
    push_str(&mut out, "<path d=\"");
    push_str(&mut out, data);
    push_str(&mut out, "\" fill=\"none\" class=\"");
    push_str(&mut out, prefix);
    push_str(&mut out, " ");
    push_str(&mut out, class.as_str());
    push_str(&mut out, " ");
    push_str(&mut out, kind);
    push_str(&mut out, "\" style=\"fill: none; stroke: ");
    push_str(&mut out, var.as_str());
    push_str(&mut out, "; stroke-width: 0.5\"/>");
    proof {
        assert(out@ =~= stroke_path_text(data@, color, role, kind@, theme, prefix@));
    }
    out
}

/// Renders the open chevron of an arrow head through three written-out points.
pub fn arrow_head_markup(
    chevron: &Vec<(String, String)>,
    color: ColorRamp,
    theme: ThemeMode,
    prefix: &str,
) -> (r: String)
    ensures
        r@ == stroke_path_text(
            path_data_text(chevron@),
            color,
            SemanticRole::Arrow,
            "dm-arrow"@,
            theme,
            prefix@,
        ),
{
    let data = path_data(chevron);
    stroke_path(data.as_str(), color, SemanticRole::Arrow, "dm-arrow", theme, prefix)
}

/// The markup of an edge: nothing for a path of fewer than two points, else
/// the path followed by its arrow head.
pub open spec fn edge_text(
    points: Seq<(String, String)>,
    chevron: Seq<(String, String)>,
    color: ColorRamp,
    theme: ThemeMode,
    prefix: Seq<char>,
) -> Seq<char> {
    if points.len() < 2 {
        Seq::empty()
    } else {
        stroke_path_text(path_data_text(points), color, SemanticRole::Edge, "dm-edge"@, theme, prefix)
            + stroke_path_text(
            path_data_text(chevron),
            color,
            SemanticRole::Arrow,
            "dm-arrow"@,
            theme,
            prefix,
        )
    }
}

/// Renders an edge path through `points` with the arrow head `chevron`.
pub fn edge_markup(
    points: &Vec<(String, String)>,
    chevron: &Vec<(String, String)>,
    color: ColorRamp,
    theme: ThemeMode,
    prefix: &str,
) -> (r: String)
    ensures
        r@ == edge_text(points@, chevron@, color, theme, prefix@),
{
    if points.len() < 2 {
        return String::new();
    }
    let data = path_data(points);
    let mut out = stroke_path(data.as_str(), color, SemanticRole::Edge, "dm-edge", theme, prefix);
    let arrow = arrow_head_markup(chevron, color, theme, prefix);
    push_str(&mut out, arrow.as_str());
    out
}

/// Renders an edge label (10px) at the written-out position `(x, y)`.
pub fn edge_label_markup(label: &str, x: &str, y: &str, color: ColorRamp, theme: ThemeMode) -> (r:
    String)
    ensures
        r@ == label_text(label@, x@, y@, color, theme, "dm-edge-label"@, 10),
{
    label_markup(label, x, y, color, theme, "dm-edge-label", 10)
}

/// Path data moves to the first point and draws a line to each later one:
/// one point gives `M x,y`, and one more point appends ` L x,y`.
pub proof fn lemma_path_data_steps(points: Seq<(String, String)>, p: (String, String))
    ensures
        path_data_text(Seq::<(String, String)>::empty()) == Seq::<char>::empty(),
        path_data_text(seq![p]) == "M "@ + p.0@ + ","@ + p.1@,
        points.len() > 0 ==> path_data_text(points.push(p)) == path_data_text(points) + " L "@ + p.0@
            + ","@ + p.1@,
{
    assert(points.push(p).drop_last() =~= points);
}

/// A stroked path is unfilled, carries the classes `<prefix> dm-<ramp>-<role>
/// <kind>`, holds its path data, and strokes with the role's variable for
/// the requested theme at 0.5px.
pub proof fn lemma_stroke_path_layout(
    data: Seq<char>,
    color: ColorRamp,
    role: SemanticRole,
    kind: Seq<char>,
    theme: ThemeMode,
    prefix: Seq<char>,
)
    ensures
        holds(stroke_path_text(data, color, role, kind, theme, prefix), "d=\""@ + data + "\""@),
        holds(stroke_path_text(data, color, role, kind, theme, prefix), "fill=\"none\""@),
        holds(
            stroke_path_text(data, color, role, kind, theme, prefix),
            "class=\""@ + prefix + " "@ + color_class_text(color, role) + " "@ + kind + "\""@,
        ),
        holds(
            stroke_path_text(data, color, role, kind, theme, prefix),
            "stroke: "@ + css_var_text(color, role, theme) + "; stroke-width: 0.5"@,
        ),
{
    reveal_strlit("<path d=\"");
    reveal_strlit("<path ");
    reveal_strlit("d=\"");
    reveal_strlit("\" fill=\"none\" class=\"");
    reveal_strlit("\" ");
    reveal_strlit("\"");
    reveal_strlit(" ");
    reveal_strlit("fill=\"none\"");
    reveal_strlit("class=\"");
    reveal_strlit("\" style=\"fill: none; stroke: ");
    reveal_strlit("\" style=\"fill: none; ");
    reveal_strlit(" style=\"fill: none; ");
    reveal_strlit("stroke: ");
    reveal_strlit("; stroke-width: 0.5\"/>");
    reveal_strlit("; stroke-width: 0.5");
    reveal_strlit("\"/>");
    let t = stroke_path_text(data, color, role, kind, theme, prefix);
    let dpart = "d=\""@ + data + "\""@;
    let fpart = "fill=\"none\""@;
    let cpart = "class=\""@ + prefix + " "@ + color_class_text(color, role) + " "@ + kind + "\""@;
    let spart = "stroke: "@ + css_var_text(color, role, theme) + "; stroke-width: 0.5"@;
    assert(t =~= "<path "@ + dpart + " "@ + fpart + " "@ + cpart + " style=\"fill: none; "@ + spart
        + "\"/>"@);
    lemma_holds_mid("<path "@, dpart, " "@ + fpart + " "@ + cpart + " style=\"fill: none; "@ + spart
        + "\"/>"@);
    assert("<path "@ + dpart + (" "@ + fpart + " "@ + cpart + " style=\"fill: none; "@ + spart
        + "\"/>"@) =~= t);
    lemma_holds_mid("<path "@ + dpart + " "@, fpart, " "@ + cpart + " style=\"fill: none; "@ + spart
        + "\"/>"@);
    assert("<path "@ + dpart + " "@ + fpart + (" "@ + cpart + " style=\"fill: none; "@ + spart
        + "\"/>"@) =~= t);
    lemma_holds_mid("<path "@ + dpart + " "@ + fpart + " "@, cpart, " style=\"fill: none; "@ + spart
        + "\"/>"@);
    assert("<path "@ + dpart + " "@ + fpart + " "@ + cpart + (" style=\"fill: none; "@ + spart
        + "\"/>"@) =~= t);
    lemma_holds_mid("<path "@ + dpart + " "@ + fpart + " "@ + cpart + " style=\"fill: none; "@, spart,
        "\"/>"@);
}

/// An edge of fewer than two points draws nothing; otherwise its line,
/// stroked in the edge color, is followed by its arrow head, stroked in the
/// arrow color, both for the requested theme.
pub proof fn lemma_edge_layout(
    points: Seq<(String, String)>,
    chevron: Seq<(String, String)>,
    color: ColorRamp,
    theme: ThemeMode,
    prefix: Seq<char>,
)
    ensures
        points.len() < 2 ==> edge_text(points, chevron, color, theme, prefix) == Seq::<char>::empty(),
        points.len() >= 2 ==> edge_text(points, chevron, color, theme, prefix) == stroke_path_text(
            path_data_text(points),
            color,
            SemanticRole::Edge,
            "dm-edge"@,
            theme,
            prefix,
        ) + stroke_path_text(
            path_data_text(chevron),
            color,
            SemanticRole::Arrow,
            "dm-arrow"@,
            theme,
            prefix,
        ),
{
}

} // verus!
