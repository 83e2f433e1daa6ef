use diagramma::model::{ColorRamp, Node, NodeId, NodeShape};
use diagramma::svg::elements::container::container_markup;
use diagramma::svg::elements::edge::{
    arrow_head_markup, edge_label_markup, edge_markup, path_data,
};
use diagramma::svg::elements::node::{
    ellipse_markup, node_text_markup, polygon_markup, rect_markup, shape_paint,
};
use diagramma::svg::elements::text::{
    label_markup, label_on_color_markup, subtitle_markup,
};
use diagramma::svg::theme::StyleMode;
use diagramma::svg::tokens::ThemeMode;

fn f1(v: f64) -> String {
    format!("{v:.1}")
}

fn pts(points: &[(f64, f64)]) -> Vec<(String, String)> {
    points.iter().map(|(x, y)| (f1(*x), f1(*y))).collect()
}

fn chevron(x: f64, y: f64) -> Vec<(String, String)> {
    pts(&[(x - 6.0, y - 3.0), (x, y), (x - 6.0, y + 3.0)])
}

fn test_node() -> Node {
    Node {
        id: NodeId::new("test"),
        label: "Test Node".to_string(),
        subtitle: None,
        color: ColorRamp::Blue,
        shape: NodeShape::Rect,
    }
}

// The test layout box: x 10, y 20, width 100, height 50.
const BOX: (f64, f64, f64, f64) = (10.0, 20.0, 100.0, 50.0);

fn node_text(node: &Node, theme: ThemeMode, mode: StyleMode) -> String {
    let (x, y, w, h) = BOX;
    let cx = x + w / 2.0;
    let cy = y + h / 2.0;
    let (ty, sy) = if node.subtitle.is_some() {
        let off = (14.0 + 2.0 + 12.0) / 2.0 - 14.0 * 0.3;
        (cy - off, cy + off + 14.0 + 2.0 - 12.0 * 0.3)
    } else {
        (y + h / 2.0 + 14.0 * 0.35, 0.0)
    };
    node_text_markup(node, &f1(cx), &f1(ty), &f1(sy), theme, mode)
}

fn rect(node: &Node, rx: f64) -> String {
    let (x, y, w, h) = BOX;
    let shape = rect_markup(
        node,
        &f1(x),
        &f1(y),
        &f1(w),
        &f1(h),
        &f1(rx),
        ThemeMode::Light,
        "dm",
        StyleMode::Inline,
    );
    format!("{shape}{}", node_text(node, ThemeMode::Light, StyleMode::Inline))
}

#[test]
fn rect_markup_holds_box() {
    let svg = rect(&test_node(), 4.0);
    assert!(svg.contains("<rect"));
    assert!(svg.contains(r#"x="10.0""#));
    assert!(svg.contains(r#"y="20.0""#));
    assert!(svg.contains(r#"width="100.0""#));
    assert!(svg.contains(r#"height="50.0""#));
}

#[test]
fn rect_markup_holds_position() {
    let svg = rect(&test_node(), 4.0);
    assert!(svg.contains(r#"x="10.0""#));
    assert!(svg.contains(r#"y="20.0""#));
    assert!(svg.contains(r#"width="100.0""#));
    assert!(svg.contains(r#"height="50.0""#));
}

#[test]
fn rect_markup_uses_css_variables() {
    let svg = rect(&test_node(), 4.0);
    assert!(svg.contains("var(--dm-blue-50)"));
    assert!(svg.contains("var(--dm-blue-600)"));
}

#[test]
fn rect_markup_pill_radius() {
    let svg = rect(&test_node(), BOX.3 / 2.0);
    assert!(svg.contains(r#"rx="25.0""#));
}

#[test]
fn polygon_markup_holds_corner_points() {
    let (x, y, w, h) = BOX;
    let (cx, cy, hw, hh) = (x + w / 2.0, y + h / 2.0, w / 2.0, h / 2.0);
    let points = format!(
        "{:.1},{:.1} {:.1},{:.1} {:.1},{:.1} {:.1},{:.1}",
        cx,
        cy - hh,
        cx + hw,
        cy,
        cx,
        cy + hh,
        cx - hw,
        cy
    );
    let svg = polygon_markup(&test_node(), &points, ThemeMode::Light, "dm", StyleMode::Inline);
    assert!(svg.contains("<polygon"));
    assert!(svg.contains("points="));
    assert!(svg.contains("60.0,20.0"));
    assert!(svg.contains("110.0,45.0"));
    assert!(svg.contains("60.0,70.0"));
    assert!(svg.contains("10.0,45.0"));
}

#[test]
fn ellipse_markup_holds_centre_and_radii() {
    let (x, y, w, h) = BOX;
    let svg = ellipse_markup(
        &test_node(),
        &f1(x + w / 2.0),
        &f1(y + h / 2.0),
        &f1(w / 2.0),
        &f1(h / 2.0),
        ThemeMode::Light,
        "dm",
        StyleMode::Inline,
    );
    assert!(svg.contains("<ellipse"));
    assert!(svg.contains(r#"cx="60.0""#));
    assert!(svg.contains(r#"cy="45.0""#));
    assert!(svg.contains(r#"rx="50.0""#));
    assert!(svg.contains(r#"ry="25.0""#));
}

#[test]
fn node_text_markup_holds_title() {
    let svg = rect(&test_node(), 4.0);
    assert!(svg.contains("<text"));
    assert!(svg.contains("Test Node"));
}

#[test]
fn node_text_markup_with_subtitle_has_two_lines() {
    let mut node = test_node();
    node.subtitle = Some("Subtitle".into());
    let svg = rect(&node, 4.0);
    assert!(svg.contains("Test Node"));
    assert!(svg.contains("Subtitle"));
    assert_eq!(svg.matches("<text").count(), 2);
}

#[test]
fn rect_markup_keeps_given_radius() {
    let subtle = rect(&test_node(), 4.0);
    let emphasized = rect(&test_node(), 8.0);
    assert!(subtle.contains(r#"rx="4.0""#));
    assert!(emphasized.contains(r#"rx="8.0""#));
}

#[test]
fn shape_paint_exact_in_both_modes() {
    assert_eq!(
        shape_paint(ColorRamp::Teal, ThemeMode::Dark, "dm", StyleMode::Inline),
        r#" class="dm dm-teal-fill dm-teal-stroke" style="fill: var(--dm-teal-800); stroke: var(--dm-teal-200); stroke-width: 0.5""#
    );
    assert_eq!(
        shape_paint(ColorRamp::Teal, ThemeMode::Dark, "dm", StyleMode::ClassOnly),
        r#" class="dm dm-teal-fill dm-teal-stroke""#
    );
}

#[test]
fn node_text_exact_with_subtitle_class_only() {
    let mut node = test_node();
    node.label = "A<B".to_string();
    node.subtitle = Some("s".to_string());
    let svg = node_text_markup(&node, "1.0", "2.0", "3.0", ThemeMode::Light, StyleMode::ClassOnly);
    assert_eq!(
        svg,
        format!(
            "{}{}",
            r#"<text x="1.0" y="2.0" text-anchor="middle" font-size="14px" class="dm-node-title dm-blue-text-on-color dm-text">A&lt;B</text>"#,
            r#"<text x="1.0" y="3.0" text-anchor="middle" font-size="12px" class="dm-node-subtitle dm-blue-text-on-color dm-text">s</text>"#
        )
    );
}

#[test]
fn label_on_color_inline_uses_text_on_color_stop() {
    let svg = label_on_color_markup(
        "t",
        "0.0",
        "0.0",
        ColorRamp::Red,
        ThemeMode::Light,
        "c",
        14,
        StyleMode::Inline,
    );
    assert!(svg.contains(r#" style="fill: var(--dm-red-900)">t</text>"#));
}

fn test_edge_points() -> Vec<(String, String)> {
    pts(&[(0.0, 0.0), (50.0, 0.0), (50.0, 50.0)])
}

#[test]
fn edge_markup_is_unfilled_thin_path() {
    let svg = edge_markup(
        &test_edge_points(),
        &chevron(50.0, 50.0),
        ColorRamp::Blue,
        ThemeMode::Light,
        "dm",
    );
    assert!(svg.contains("<path"));
    assert!(svg.contains('d'));
    assert!(svg.contains(r#"fill="none""#));
    assert!(svg.contains("stroke-width: 0.5"));
}

#[test]
fn path_data_moves_then_draws_lines() {
    let data = path_data(&test_edge_points());
    assert_eq!(data, "M 0.0,0.0 L 50.0,0.0 L 50.0,50.0");
}

#[test]
fn path_data_of_no_points_is_empty() {
    let data = path_data(&Vec::new());
    assert!(data.is_empty());
}

#[test]
fn path_data_of_one_point_moves_only() {
    let data = path_data(&pts(&[(10.0, 20.0)]));
    assert_eq!(data, "M 10.0,20.0");
}

#[test]
fn edge_markup_uses_css_variables() {
    let svg = edge_markup(
        &test_edge_points(),
        &chevron(50.0, 50.0),
        ColorRamp::Blue,
        ThemeMode::Light,
        "dm",
    );
    assert!(svg.contains("var(--dm-blue-600)"));
}

#[test]
fn arrow_head_markup_is_open_chevron() {
    let svg = arrow_head_markup(&chevron(100.0, 50.0), ColorRamp::Teal, ThemeMode::Light, "dm");
    assert!(svg.contains("<path"));
    assert!(svg.contains(r#"fill="none""#));
    assert!(svg.contains("M "));
    assert!(svg.contains(" L "));
    assert!(svg.contains(r#"d="M 94.0,47.0 L 100.0,50.0 L 94.0,53.0""#));
}

#[test]
fn edge_markup_straight_path() {
    let svg = edge_markup(
        &pts(&[(0.0, 0.0), (100.0, 0.0)]),
        &chevron(100.0, 0.0),
        ColorRamp::Gray,
        ThemeMode::Light,
        "dm",
    );
    assert!(svg.contains("M 0.0,0.0"));
    assert!(svg.contains("L 100.0,0.0"));
}

#[test]
fn edge_markup_includes_arrow_head() {
    let svg = edge_markup(
        &test_edge_points(),
        &chevron(50.0, 50.0),
        ColorRamp::Blue,
        ThemeMode::Light,
        "dm",
    );
    assert_eq!(svg.matches("<path").count(), 2);
}

#[test]
fn edge_markup_uses_color_classes() {
    let svg = edge_markup(
        &test_edge_points(),
        &chevron(50.0, 50.0),
        ColorRamp::Green,
        ThemeMode::Light,
        "dm",
    );
    assert!(svg.contains("dm-green-edge"));
    assert!(svg.contains("dm-green-arrow"));
}

#[test]
fn edge_with_one_point_renders_nothing() {
    let svg = edge_markup(
        &pts(&[(1.0, 1.0)]),
        &chevron(1.0, 1.0),
        ColorRamp::Green,
        ThemeMode::Light,
        "dm",
    );
    assert_eq!(svg, "");
}

#[test]
fn edge_path_exact() {
    let svg = edge_markup(
        &pts(&[(0.0, 0.0), (10.0, 0.0)]),
        &chevron(10.0, 0.0),
        ColorRamp::Amber,
        ThemeMode::Dark,
        "p",
    );
    assert_eq!(
        svg,
        format!(
            "{}{}",
            r#"<path d="M 0.0,0.0 L 10.0,0.0" fill="none" class="p dm-amber-edge dm-edge" style="fill: none; stroke: var(--dm-amber-200); stroke-width: 0.5"/>"#,
            r#"<path d="M 4.0,-3.0 L 10.0,0.0 L 4.0,3.0" fill="none" class="p dm-amber-arrow dm-arrow" style="fill: none; stroke: var(--dm-amber-200); stroke-width: 0.5"/>"#
        )
    );
}

#[test]
fn edge_label_is_ten_pixels() {
    let svg = edge_label_markup("yes", "5.0", "1.0", ColorRamp::Gray, ThemeMode::Light);
    assert!(svg.contains(r#"font-size="10px""#));
    assert!(svg.contains("dm-edge-label dm-text"));
    assert!(svg.contains(">yes</text>"));
}

#[test]
fn label_markup_is_centred_text_element() {
    let svg = label_markup(
        "Hello",
        &f1(100.0),
        &f1(50.0),
        ColorRamp::Blue,
        ThemeMode::Light,
        "dm-title",
        14,
    );
    assert!(svg.starts_with("<text"));
    assert!(svg.contains("</text>"));
    assert!(svg.contains(r#"x="100.0""#));
    assert!(svg.contains(r#"y="50.0""#));
    assert!(svg.contains(r#"font-size="14px""#));
    assert!(svg.contains(r#"text-anchor="middle""#));
}

#[test]
fn label_markup_holds_content() {
    let svg = label_markup(
        "Test Label",
        &f1(100.0),
        &f1(50.0),
        ColorRamp::Blue,
        ThemeMode::Light,
        "dm-title",
        14,
    );
    assert!(svg.contains(">Test Label</text>"));
}

#[test]
fn label_markup_uses_title_variable() {
    let svg = label_markup(
        "Hello",
        &f1(100.0),
        &f1(50.0),
        ColorRamp::Blue,
        ThemeMode::Light,
        "dm-title",
        14,
    );
    assert!(svg.contains("var(--dm-blue-800)"));
}

#[test]
fn label_markup_escapes_content() {
    let svg = label_markup(
        "<Test>",
        &f1(100.0),
        &f1(50.0),
        ColorRamp::Blue,
        ThemeMode::Light,
        "dm-title",
        14,
    );
    assert!(svg.contains("&lt;Test&gt;"));
    assert!(!svg.contains("<Test>"));
}

#[test]
fn subtitle_markup_uses_12px_font() {
    let svg = subtitle_markup("Subtitle", &f1(100.0), &f1(50.0), ColorRamp::Teal, ThemeMode::Light);
    assert!(svg.contains(r#"font-size="12px""#));
    assert!(svg.contains("dm-node-subtitle"));
}

#[test]
fn label_exact_and_font_size_digits() {
    assert_eq!(
        label_markup("a&b", "1.5", "2.5", ColorRamp::Pink, ThemeMode::Dark, "k", 0),
        r#"<text x="1.5" y="2.5" text-anchor="middle" font-size="0px" class="k dm-text" style="fill: var(--dm-pink-100)">a&amp;b</text>"#
    );
    assert!(label_markup("", "0", "0", ColorRamp::Pink, ThemeMode::Light, "k", 120)
        .contains(r#"font-size="120px""#));
    assert!(label_markup("", "0", "0", ColorRamp::Pink, ThemeMode::Light, "k", 4294967295)
        .contains(r#"font-size="4294967295px""#));
}

struct Box4 {
    x: f64,
    y: f64,
    width: f64,
    height: f64,
}

fn test_container() -> Box4 {
    Box4 {
        x: 10.0,
        y: 20.0,
        width: 200.0,
        height: 150.0,
    }
}

fn container(c: &Box4, label: &str, color: ColorRamp, theme: ThemeMode, children: &str) -> String {
    let label_x = c.x + c.width / 2.0;
    let label_y = c.y + 8.0 + 10.0;
    container_markup(
        &f1(c.x),
        &f1(c.y),
        &f1(c.width),
        &f1(c.height),
        label,
        &f1(label_x),
        &f1(label_y),
        color,
        theme,
        "dm",
        children,
    )
}

#[test]
fn container_markup_holds_rect_and_label() {
    let svg = container(&test_container(), "Container", ColorRamp::Blue, ThemeMode::Light, "");
    assert!(svg.contains("<rect"));
    assert!(svg.contains("<text"));
    assert!(svg.contains("Container"));
    assert!(svg.contains("dm-container"));
}

#[test]
fn container_markup_holds_position() {
    let svg = container(&test_container(), "Container", ColorRamp::Blue, ThemeMode::Light, "");
    assert!(svg.contains(r#"x="10.0""#));
    assert!(svg.contains(r#"y="20.0""#));
    assert!(svg.contains(r#"width="200.0""#));
    assert!(svg.contains(r#"height="150.0""#));
}

#[test]
fn container_markup_uses_css_variables() {
    let svg = container(&test_container(), "Container", ColorRamp::Teal, ThemeMode::Light, "");
    assert!(svg.contains("var(--dm-teal-50)"));
    assert!(svg.contains("var(--dm-teal-600)"));
}

#[test]
fn container_markup_has_dashed_stroke() {
    let svg = container(&test_container(), "Container", ColorRamp::Blue, ThemeMode::Light, "");
    assert!(svg.contains("stroke-dasharray: 2,2"));
}

#[test]
fn container_markup_uses_subtle_radius() {
    let svg = container(&test_container(), "Container", ColorRamp::Blue, ThemeMode::Light, "");
    assert!(svg.contains(r#"rx="4""#));
}

#[test]
fn container_markup_label_near_top() {
    let svg = container(&test_container(), "Container", ColorRamp::Blue, ThemeMode::Light, "");
    assert!(svg.contains(r#"x="110.0""#));
    assert!(svg.contains(r#"y="38.0""#));
}

#[test]
fn container_markup_is_a_group() {
    let svg = container(&test_container(), "Container", ColorRamp::Blue, ThemeMode::Light, "");
    assert!(svg.starts_with("<g"));
    assert!(svg.ends_with("</g>"));
}

#[test]
fn container_markup_holds_children() {
    let children_svg = r#"<rect x="30" y="50" width="50" height="30"/>"#;
    let svg = container(
        &test_container(),
        "Container",
        ColorRamp::Blue,
        ThemeMode::Light,
        children_svg,
    );
    assert!(svg.contains(r#"<rect x="30" y="50""#));
}

#[test]
fn container_markup_uses_color_classes() {
    let svg = container(&test_container(), "Container", ColorRamp::Purple, ThemeMode::Light, "");
    assert!(svg.contains("dm-purple-fill"));
    assert!(svg.contains("dm-purple-stroke"));
}

#[test]
fn container_markup_dark_mode_values() {
    let svg = container(&test_container(), "Container", ColorRamp::Blue, ThemeMode::Dark, "");
    assert!(svg.contains("var(--dm-blue-800)"));
    assert!(svg.contains("var(--dm-blue-200)"));
}
