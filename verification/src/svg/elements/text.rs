//! Text elements: XML escaping of labels and the `<text>` markup of titles,
//! subtitles and container labels. Coordinates arrive already written out as
//! decimal text, one digit after the point.
use vstd::prelude::*;

use crate::svg::theme::{maybe_style_attr, style_attr_text, StyleMode};
use crate::svg::tokens::{
    color_class, color_class_text, css_var, css_var_text, ColorRamp, SemanticRole, ThemeMode,
};
use crate::textseq::{
    concat_map, holds, lemma_concat_map_first, lemma_concat_map_step, lemma_holds_mid, push_char,
    push_str,
};
use vstd::std_specs::iter::IteratorSpec;

verus! {

/// The escaped form of one character: `&`, `<`, `>` and `"` become entities,
/// every other character stands for itself.
pub open spec fn escape_char(c: char) -> Seq<char> {
    if c == '&' {
        "&amp;"@
    } else if c == '<' {
        "&lt;"@
    } else if c == '>' {
        "&gt;"@
    } else if c == '"' {
        "&quot;"@
    } else {
        seq![c]
    }
}

/// `escape_char` as a function value.
pub open spec fn escape_char_of() -> spec_fn(char) -> Seq<char> {
    |c: char| escape_char(c)
}

/// The escaped form of a text: each character replaced by its escaped form.
pub open spec fn escape_text(text: Seq<char>) -> Seq<char> {
    concat_map(text, escape_char_of())
}

/// Escapes special XML characters in text content.
pub fn escape_xml(text: &str) -> (r: String)
    ensures
        r@ == escape_text(text@),
{
    let mut out = String::new();
    let mut chars = text.chars();
    let ghost mut k: int = 0;
    loop
        invariant
            0 <= k <= text@.len(),
            chars.remaining() == text@.skip(k),
            out@ == concat_map(text@.take(k), escape_char_of()),
        ensures
            k == text@.len(),
            out@ == concat_map(text@.take(k), escape_char_of()),
        decreases text@.len() - k,
    {
        let ghost before = chars.remaining();
        match chars.next() {
            Some(c) => {
                proof {
                    assert(before.len() > 0);
                    assert(c == text@[k]);
                    lemma_concat_map_step(text@, k, escape_char_of());
                }
                if c == '&' {
                    push_str(&mut out, "&amp;");
                } else if c == '<' {
                    push_str(&mut out, "&lt;");
                } else if c == '>' {
                    push_str(&mut out, "&gt;");
                } else if c == '"' {
                    push_str(&mut out, "&quot;");
                } else {
                    push_char(&mut out, c);
                }
                proof {
                    assert(text@.skip(k).drop_first() =~= text@.skip(k + 1));
                    k = k + 1;
                }
            },
            None => {
                proof {
                    assert(text@.skip(k).len() == 0);
                }
                break ;
            },
        }
    }
    proof {
        assert(text@.take(k) =~= text@);
    }
    out
}

/// Whether `c` is one of the characters that escaping replaces.
pub open spec fn is_special(c: char) -> bool {
    c == '&' || c == '<' || c == '>' || c == '"'
}

/// Escaped text holds no `<`, `>` or `"`: it cannot open or close markup or
/// end an attribute value.
pub proof fn lemma_escape_has_no_markup(text: Seq<char>)
    ensures
        forall|i: int|
            0 <= i < escape_text(text).len() ==> {
                let c = #[trigger] escape_text(text)[i];
                c != '<' && c != '>' && c != '"'
            },
    decreases text.len(),
{
    reveal_strlit("&amp;");
    reveal_strlit("&lt;");
    reveal_strlit("&gt;");
    reveal_strlit("&quot;");
    if text.len() > 0 {
        lemma_escape_has_no_markup(text.drop_last());
        let head = escape_text(text.drop_last());
        let tail = escape_char(text.last());
        assert(escape_text(text) == head + tail);
        assert forall|i: int| 0 <= i < escape_text(text).len() implies {
            let c = #[trigger] escape_text(text)[i];
            c != '<' && c != '>' && c != '"'
        } by {
            if i < head.len() {
                assert(escape_text(text)[i] == head[i]);
            } else {
                assert(escape_text(text)[i] == tail[i - head.len()]);
            }
        }
    }
}

/// Text without `&`, `<`, `>` and `"` comes out of escaping unchanged.
pub proof fn lemma_escape_keeps_plain_text(text: Seq<char>)
    requires
        forall|i: int| 0 <= i < text.len() ==> !is_special(#[trigger] text[i]),
    ensures
        escape_text(text) == text,
    decreases text.len(),
{
    if text.len() > 0 {
        lemma_escape_keeps_plain_text(text.drop_last());
        assert(!is_special(text[text.len() - 1]));
        assert(text.drop_last().push(text.last()) =~= text);
    }
}

/// The character of the decimal digit `d`.
pub open spec fn digit_char(d: nat) -> char {
    if d == 0 {
        '0'
    } else if d == 1 {
        '1'
    } else if d == 2 {
        '2'
    } else if d == 3 {
        '3'
    } else if d == 4 {
        '4'
    } else if d == 5 {
        '5'
    } else if d == 6 {
        '6'
    } else if d == 7 {
        '7'
    } else if d == 8 {
        '8'
    } else {
        '9'
    }
}

/// The decimal digits of `n`, without leading zeros.
pub open spec fn decimal_text(n: nat) -> Seq<char>
    decreases n,
{
    if n < 10 {
        seq![digit_char(n)]
    } else {
        decimal_text(n / 10).push(digit_char(n % 10))
    }
}

/// The character of a decimal digit.
fn digit(d: u32) -> (c: char)
    requires
        d < 10,
    ensures
        c == digit_char(d as nat),
{
    match d {
        0 => '0',
        1 => '1',
        2 => '2',
        3 => '3',
        4 => '4',
        5 => '5',
        6 => '6',
        7 => '7',
        8 => '8',
        _ => '9',
    }
}

/// Appends the decimal digits of `n` to `buf`.
pub fn push_decimal(buf: &mut String, n: u32)
    ensures
        final(buf)@ == old(buf)@ + decimal_text(n as nat),
    decreases n,
{
    if n >= 10 {
        push_decimal(buf, n / 10);
    }
    let c = digit(n % 10);
    push_char(buf, c);
    proof {
        assert(final(buf)@ =~= old(buf)@ + decimal_text(n as nat));
    }
}

/// The `<text>` element `label_markup` returns: centred at `(x, y)`, in the
/// ramp's title color, with the classes `<class> dm-text`.
pub open spec fn label_text(
    text: Seq<char>,
    x: Seq<char>,
    y: Seq<char>,
    color: ColorRamp,
    theme: ThemeMode,
    class: Seq<char>,
    font_size: nat,
) -> Seq<char> {
    "<text x=\""@ + x + "\" y=\""@ + y + "\" text-anchor=\"middle\" font-size=\""@ + decimal_text(
        font_size,
    ) + "px\" class=\""@ + class + " dm-text\" style=\"fill: "@ + css_var_text(
        color,
        SemanticRole::Title,
        theme,
    ) + "\">"@ + escape_text(text) + "</text>"@
}

/// Renders a text label at the written-out position `(x, y)`.
pub fn label_markup(
    text: &str,
    x: &str,
    y: &str,
    color: ColorRamp,
    theme: ThemeMode,
    class: &str,
    font_size: u32,
) -> (r: String)
    ensures
        r@ == label_text(text@, x@, y@, color, theme, class@, font_size as nat),
{
    let text_color = css_var(color, SemanticRole::Title, theme);
    let escaped = escape_xml(text);
    let mut out = String::new();
    push_str(&mut out, "<text x=\"");
    push_str(&mut out, x);
    push_str(&mut out, "\" y=\"");
    push_str(&mut out, y);
    push_str(&mut out, "\" text-anchor=\"middle\" font-size=\"");
    push_decimal(&mut out, font_size);
    push_str(&mut out, "px\" class=\"");
    push_str(&mut out, class);
    push_str(&mut out, " dm-text\" style=\"fill: ");
    push_str(&mut out, text_color.as_str());
    push_str(&mut out, "\">");
    push_str(&mut out, escaped.as_str());
    push_str(&mut out, "</text>");
    proof {
        assert(out@ =~= label_text(text@, x@, y@, color, theme, class@, font_size as nat));
    }
    out
}

/// Renders a node subtitle (12px) at the written-out position `(x, y)`.
pub fn subtitle_markup(text: &str, x: &str, y: &str, color: ColorRamp, theme: ThemeMode) -> (r: String)
    ensures
        r@ == label_text(text@, x@, y@, color, theme, "dm-node-subtitle"@, 12),
{
    label_markup(text, x, y, color, theme, "dm-node-subtitle", 12)
}

/// Renders a container label (14px) at the written-out position `(x, y)`.
pub fn container_label_markup(text: &str, x: &str, y: &str, color: ColorRamp, theme: ThemeMode) -> (r:
    String)
    ensures
        r@ == label_text(text@, x@, y@, color, theme, "dm-container-label"@, 14),
{
    label_markup(text, x, y, color, theme, "dm-container-label", 14)
}

/// The `<text>` element of a label drawn on the ramp's own fill: classes
/// `<class> dm-<ramp>-text-on-color dm-text`, and in inline mode a fill in the
/// ramp's text-on-color stop.
pub open spec fn on_color_label_text(
    text: Seq<char>,
    x: Seq<char>,
    y: Seq<char>,
    color: ColorRamp,
    theme: ThemeMode,
    class: Seq<char>,
    font_size: nat,
    mode: StyleMode,
) -> Seq<char> {
    "<text x=\""@ + x + "\" y=\""@ + y + "\" text-anchor=\"middle\" font-size=\""@ + decimal_text(
        font_size,
    ) + "px\" class=\""@ + class + " "@ + color_class_text(color, SemanticRole::TextOnColor)
        + " dm-text\""@ + style_attr_text(
        mode,
        color,
        SemanticRole::TextOnColor,
        theme,
        "fill"@,
        Seq::empty(),
    ) + ">"@ + escape_text(text) + "</text>"@
}

/// Renders a label that sits on a colored fill of the same ramp.
pub fn label_on_color_markup(
    text: &str,
    x: &str,
    y: &str,
    color: ColorRamp,
    theme: ThemeMode,
    class: &str,
    font_size: u32,
    mode: StyleMode,
) -> (r: String)
    ensures
        r@ == on_color_label_text(text@, x@, y@, color, theme, class@, font_size as nat, mode),
{
    let text_class = color_class(color, SemanticRole::TextOnColor);
    let style = maybe_style_attr(mode, color, SemanticRole::TextOnColor, theme, "fill", "");
    let escaped = escape_xml(text);
    proof {
        reveal_strlit("");
    }
    let mut out = String::new();
    push_str(&mut out, "<text x=\"");
    push_str(&mut out, x);
    push_str(&mut out, "\" y=\"");
    push_str(&mut out, y);
    push_str(&mut out, "\" text-anchor=\"middle\" font-size=\"");
    push_decimal(&mut out, font_size);
    push_str(&mut out, "px\" class=\"");
    push_str(&mut out, class);
    push_str(&mut out, " ");
    push_str(&mut out, text_class.as_str());
    push_str(&mut out, " dm-text\"");
    push_str(&mut out, style.as_str());
    push_str(&mut out, ">");
    push_str(&mut out, escaped.as_str());
    push_str(&mut out, "</text>");
    proof {
        assert(""@ =~= Seq::<char>::empty());
        assert(out@ =~= on_color_label_text(text@, x@, y@, color, theme, class@, font_size as nat, mode));
    }
    out
}

/// Whether `s` begins with `p`.
pub open spec fn starts_with(s: Seq<char>, p: Seq<char>) -> bool {
    p.len() <= s.len() && s.subrange(0, p.len() as int) == p
}

/// Reads escaped text back: `&amp;`, `&lt;`, `&gt;` and `&quot;` become the
/// character they stand for, every other character stands for itself.
pub open spec fn unescape_text(s: Seq<char>) -> Seq<char>
    decreases s.len(),
{
    proof {
        reveal_strlit("&amp;");
        reveal_strlit("&lt;");
        reveal_strlit("&gt;");
        reveal_strlit("&quot;");
    }
    if s.len() == 0 {
        Seq::empty()
    } else if starts_with(s, "&amp;"@) {
        seq!['&'] + unescape_text(s.skip(5))
    } else if starts_with(s, "&lt;"@) {
        seq!['<'] + unescape_text(s.skip(4))
    } else if starts_with(s, "&gt;"@) {
        seq!['>'] + unescape_text(s.skip(4))
    } else if starts_with(s, "&quot;"@) {
        seq!['"'] + unescape_text(s.skip(6))
    } else {
        seq![s[0]] + unescape_text(s.skip(1))
    }
}

/// Reading back one escaped character in front of more text.
proof fn lemma_unescape_char(c: char, rest: Seq<char>)
    ensures
        unescape_text(escape_char(c) + rest) == seq![c] + unescape_text(rest),
{
    reveal_strlit("&amp;");
    reveal_strlit("&lt;");
    reveal_strlit("&gt;");
    reveal_strlit("&quot;");
    let s = escape_char(c) + rest;
    let n = escape_char(c).len() as int;
    assert(s.skip(n) =~= rest);
    assert(s.subrange(0, n) =~= escape_char(c));
    if c == '&' {
        assert(starts_with(s, "&amp;"@));
    } else if c == '<' {
        assert(!starts_with(s, "&amp;"@)) by {
            assert(s[1] == 'l');
            if starts_with(s, "&amp;"@) {
                assert(s.subrange(0, 5)[1] == 'a');
            }
        }
        assert(starts_with(s, "&lt;"@));
    } else if c == '>' {
        assert(!starts_with(s, "&amp;"@)) by {
            if starts_with(s, "&amp;"@) {
                assert(s.subrange(0, 5)[1] == 'a');
            }
        }
        assert(!starts_with(s, "&lt;"@)) by {
            if starts_with(s, "&lt;"@) {
                assert(s.subrange(0, 4)[1] == 'l');
            }
        }
        assert(starts_with(s, "&gt;"@));
    } else if c == '"' {
        assert(!starts_with(s, "&amp;"@)) by {
            if starts_with(s, "&amp;"@) {
                assert(s.subrange(0, 5)[1] == 'a');
            }
        }
        assert(!starts_with(s, "&lt;"@)) by {
            if starts_with(s, "&lt;"@) {
                assert(s.subrange(0, 4)[1] == 'l');
            }
        }
        assert(!starts_with(s, "&gt;"@)) by {
            if starts_with(s, "&gt;"@) {
                assert(s.subrange(0, 4)[1] == 'g');
            }
        }
        assert(starts_with(s, "&quot;"@));
    } else {
        assert(s[0] == c);
        assert(!starts_with(s, "&amp;"@)) by {
            if starts_with(s, "&amp;"@) {
                assert(s.subrange(0, 5)[0] == '&');
            }
        }
        assert(!starts_with(s, "&lt;"@)) by {
            if starts_with(s, "&lt;"@) {
                assert(s.subrange(0, 4)[0] == '&');
            }
        }
        assert(!starts_with(s, "&gt;"@)) by {
            if starts_with(s, "&gt;"@) {
                assert(s.subrange(0, 4)[0] == '&');
            }
        }
        assert(!starts_with(s, "&quot;"@)) by {
            if starts_with(s, "&quot;"@) {
                assert(s.subrange(0, 6)[0] == '&');
            }
        }
    }
}

/// Escaping loses nothing: reading the escaped text back gives the text.
pub proof fn lemma_unescape_escape(text: Seq<char>)
    ensures
        unescape_text(escape_text(text)) == text,
    decreases text.len(),
{
    if text.len() > 0 {
        lemma_concat_map_first(text, escape_char_of());
        lemma_unescape_char(text[0], escape_text(text.drop_first()));
        lemma_unescape_escape(text.drop_first());
        assert(seq![text[0]] + text.drop_first() =~= text);
    } else {
        assert(escape_text(text) =~= Seq::<char>::empty());
    }
}

/// The number a string of decimal digits spells.
pub open spec fn digits_value(s: Seq<char>) -> int
    decreases s.len(),
{
    if s.len() == 0 {
        0
    } else {
        digits_value(s.drop_last()) * 10 + (s.last() as int - '0' as int)
    }
}

/// `decimal_text(n)` is written with digits only, has no leading zero
/// unless it is `0` itself, and spells `n`.
pub proof fn lemma_decimal_spells(n: nat)
    ensures
        decimal_text(n).len() > 0,
        forall|i: int|
            0 <= i < decimal_text(n).len() ==> '0' <= #[trigger] decimal_text(n)[i] <= '9',
        n > 0 ==> decimal_text(n)[0] != '0',
        digits_value(decimal_text(n)) == n,
    decreases n,
{
    if n >= 10 {
        let q = n / 10;
        let d = n % 10;
        lemma_decimal_spells(q);
        let s = decimal_text(n);
        assert(s == decimal_text(q).push(digit_char(d)));
        assert(s.drop_last() =~= decimal_text(q));
        assert(digit_char(d) as int - '0' as int == d);
        assert(q * 10 + d == n);
        assert forall|i: int| 0 <= i < s.len() implies '0' <= #[trigger] s[i] <= '9' by {
            if i < s.len() - 1 {
                assert(s[i] == decimal_text(q)[i]);
            }
        }
        assert(s[0] == decimal_text(q)[0]);
        assert(s.last() == digit_char(d));
        assert(digits_value(s) == digits_value(decimal_text(q)) * 10 + (digit_char(d) as int - '0' as int));
    } else {
        let s = decimal_text(n);
        assert(s.drop_last() =~= Seq::<char>::empty());
        assert(s.last() == digit_char(n));
        assert(digit_char(n) as int - '0' as int == n);
        assert(digits_value(s) == digits_value(s.drop_last()) * 10 + (s.last() as int - '0' as int));
    }
}

/// A label opens at its written-out position, is drawn in the ramp's title
/// color for the requested theme at its font size, and closes with the
/// escaped text.
pub proof fn lemma_label_layout(
    text: Seq<char>,
    x: Seq<char>,
    y: Seq<char>,
    color: ColorRamp,
    theme: ThemeMode,
    class: Seq<char>,
    font_size: nat,
)
    ensures
        ({
            let l = label_text(text, x, y, color, theme, class, font_size);
            let head = "<text x=\""@ + x + "\" y=\""@ + y + "\""@;
            let tail = escape_text(text) + "</text>"@;
            &&& l.subrange(0, head.len() as int) == head
            &&& l.subrange(l.len() - tail.len(), l.len() as int) == tail
            &&& holds(l, "fill: "@ + css_var_text(color, SemanticRole::Title, theme))
            &&& holds(l, "font-size=\""@ + decimal_text(font_size) + "px\""@)
            &&& holds(l, "class=\""@ + class + " dm-text\""@)
        }),
{
    reveal_strlit(" text-anchor=\"middle\" font-size=\"");
    reveal_strlit("\" text-anchor=\"middle\" font-size=\"");
    reveal_strlit("\"");
    reveal_strlit(" ");
    reveal_strlit(" text-anchor=\"middle\" ");
    reveal_strlit("font-size=\"");
    reveal_strlit("px\" class=\"");
    reveal_strlit("px\"");
    reveal_strlit(" class=\"");
    reveal_strlit("class=\"");
    reveal_strlit(" dm-text\" style=\"fill: ");
    reveal_strlit(" dm-text\"");
    reveal_strlit(" style=\"");
    reveal_strlit("fill: ");
    reveal_strlit("\">");
    let l = label_text(text, x, y, color, theme, class, font_size);
    let head = "<text x=\""@ + x + "\" y=\""@ + y + "\""@;
    let fsz = "font-size=\""@ + decimal_text(font_size) + "px\""@;
    let cls = "class=\""@ + class + " dm-text\""@;
    let fill = "fill: "@ + css_var_text(color, SemanticRole::Title, theme);
    let tail = escape_text(text) + "</text>"@;
    assert(l =~= head + " text-anchor=\"middle\" "@ + fsz + " "@ + cls + " style=\""@ + fill + "\">"@
        + tail);
    assert(l.subrange(0, head.len() as int) =~= head);
    assert(l.subrange(l.len() - tail.len(), l.len() as int) =~= tail);
    let a = head + " text-anchor=\"middle\" "@;
    lemma_holds_mid(a, fsz, " "@ + cls + " style=\""@ + fill + "\">"@ + tail);
    assert(a + fsz + (" "@ + cls + " style=\""@ + fill + "\">"@ + tail) =~= l);
    lemma_holds_mid(a + fsz + " "@, cls, " style=\""@ + fill + "\">"@ + tail);
    assert(a + fsz + " "@ + cls + (" style=\""@ + fill + "\">"@ + tail) =~= l);
    lemma_holds_mid(a + fsz + " "@ + cls + " style=\""@, fill, "\">"@ + tail);
    assert(a + fsz + " "@ + cls + " style=\""@ + fill + ("\">"@ + tail) =~= l);
}

/// A label on a colored fill opens at its written-out position, carries its
/// class, the ramp's text-on-color class and `dm-text`, closes with the
/// escaped text, and in inline mode is filled with the ramp's text-on-color
/// variable for the requested theme (in class-only mode with no style).
pub proof fn lemma_on_color_label_layout(
    text: Seq<char>,
    x: Seq<char>,
    y: Seq<char>,
    color: ColorRamp,
    theme: ThemeMode,
    class: Seq<char>,
    font_size: nat,
    mode: StyleMode,
)
    ensures
        ({
            let l = on_color_label_text(text, x, y, color, theme, class, font_size, mode);
            let head = "<text x=\""@ + x + "\" y=\""@ + y + "\""@;
            let tail = ">"@ + escape_text(text) + "</text>"@;
            let cls = "class=\""@ + class + " "@ + color_class_text(color, SemanticRole::TextOnColor)
                + " dm-text\""@;
            let fsz = "font-size=\""@ + decimal_text(font_size) + "px\""@;
            let style = " style=\"fill: "@ + css_var_text(color, SemanticRole::TextOnColor, theme)
                + "\""@;
            &&& l.subrange(0, head.len() as int) == head
            &&& l.subrange(l.len() - tail.len(), l.len() as int) == tail
            &&& holds(l, fsz)
            &&& holds(l, cls)
            &&& mode == StyleMode::Inline ==> l == head + " text-anchor=\"middle\" "@ + fsz + " "@ + cls
                + style + tail
            &&& mode == StyleMode::ClassOnly ==> l == head + " text-anchor=\"middle\" "@ + fsz + " "@
                + cls + tail
        }),
{
    reveal_strlit(" text-anchor=\"middle\" font-size=\"");
    reveal_strlit("\" text-anchor=\"middle\" font-size=\"");
    reveal_strlit("\"");
    reveal_strlit(" ");
    reveal_strlit(" text-anchor=\"middle\" ");
    reveal_strlit("font-size=\"");
    reveal_strlit("px\" class=\"");
    reveal_strlit("px\"");
    reveal_strlit("class=\"");
    reveal_strlit(" dm-text\"");
    reveal_strlit(" style=\"");
    reveal_strlit(" style=\"fill: ");
    reveal_strlit(": ");
    reveal_strlit("fill");
    reveal_strlit(">");
    let l = on_color_label_text(text, x, y, color, theme, class, font_size, mode);
    let head = "<text x=\""@ + x + "\" y=\""@ + y + "\""@;
    let tail = ">"@ + escape_text(text) + "</text>"@;
    let cls = "class=\""@ + class + " "@ + color_class_text(color, SemanticRole::TextOnColor)
        + " dm-text\""@;
    let fsz = "font-size=\""@ + decimal_text(font_size) + "px\""@;
    let style = style_attr_text(mode, color, SemanticRole::TextOnColor, theme, "fill"@, Seq::empty());
    let a = head + " text-anchor=\"middle\" "@;
    assert(l =~= a + fsz + " "@ + cls + style + tail);
    if mode == StyleMode::Inline {
        assert(style =~= " style=\"fill: "@ + css_var_text(color, SemanticRole::TextOnColor, theme)
            + "\""@);
    } else {
        assert(style =~= Seq::<char>::empty());
        assert(l =~= a + fsz + " "@ + cls + tail);
    }
    assert(l.subrange(0, head.len() as int) =~= head);
    assert(l.subrange(l.len() - tail.len(), l.len() as int) =~= tail);
    lemma_holds_mid(a, fsz, " "@ + cls + style + tail);
    assert(a + fsz + (" "@ + cls + style + tail) =~= l);
    lemma_holds_mid(a + fsz + " "@, cls, style + tail);
    assert(a + fsz + " "@ + cls + (style + tail) =~= l);
}

} // verus!
