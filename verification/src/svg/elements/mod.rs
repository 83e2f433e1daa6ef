//! SVG markup helpers shared by the element renderers.
use vstd::prelude::*;

use crate::textseq::{join_with, push_str};

pub mod container;
pub mod edge;
pub mod node;
pub mod text;

verus! {

/// The views of a sequence of string slices.
pub open spec fn str_views(items: Seq<&str>) -> Seq<Seq<char>> {
    items.map_values(|s: &str| s@)
}

/// The class attribute `class_attr` returns: empty for no classes, else
/// ` class="<classes joined by one space>"`.
pub open spec fn class_attr_text(classes: Seq<Seq<char>>) -> Seq<char> {
    if classes.len() == 0 {
        Seq::empty()
    } else {
        " class=\""@ + join_with(classes, " "@) + "\""@
    }
}

/// Appends the elements of `parts` to `buf`, separated by `sep`.
fn append_joined(buf: &mut String, parts: &[&str], sep: &str)
    ensures
        final(buf)@ == old(buf)@ + join_with(str_views(parts@), sep@),
{
    let ghost start = buf@;
    let ghost views = str_views(parts@);
    let mut i: usize = 0;
    while i < parts.len()
        invariant
            0 <= i <= parts@.len(),
            views == str_views(parts@),
            buf@ == start + join_with(views.take(i as int), sep@),
        decreases parts@.len() - i,
    {
        let ghost before = buf@;
        if i > 0 {
            push_str(buf, sep);
        }
        push_str(buf, parts[i]);
        proof {
            assert(views.take(i + 1).drop_last() =~= views.take(i as int));
            if i == 0 {
                assert(join_with(views.take(1), sep@) == views[0]);
            }
            assert(buf@ =~= start + join_with(views.take(i + 1), sep@));
        }
        i += 1;
    }
    proof {
        assert(views.take(parts@.len() as int) =~= views);
    }
}

/// Helper to format a CSS class attribute.
pub fn class_attr(classes: &[&str]) -> (r: String)
    ensures
        r@ == class_attr_text(str_views(classes@)),
{
    let mut out = String::new();
    if classes.len() > 0 {
        push_str(&mut out, " class=\"");
        append_joined(&mut out, classes, " ");
        push_str(&mut out, "\"");
    }
    proof {
        assert(out@ =~= class_attr_text(str_views(classes@)));
    }
    out
}

/// One `key: value` declaration of a style attribute.
pub open spec fn declaration_text(pair: (&str, &str)) -> Seq<char> {
    pair.0@ + ": "@ + pair.1@
}

/// The style attribute `style_attr` returns: empty for no pairs, else
/// ` style="<k>: <v>; <k>: <v>..."`.
pub open spec fn style_attr_text(styles: Seq<(&str, &str)>) -> Seq<char> {
    if styles.len() == 0 {
        Seq::empty()
    } else {
        " style=\""@ + join_with(styles.map_values(|p: (&str, &str)| declaration_text(p)), "; "@)
            + "\""@
    }
}

/// Helper to build a style attribute from key-value pairs.
pub fn style_attr(styles: &[(&str, &str)]) -> (r: String)
    ensures
        r@ == style_attr_text(styles@),
{
    let mut out = String::new();
    if styles.len() > 0 {
        let ghost decls = styles@.map_values(|p: (&str, &str)| declaration_text(p));
        let ghost start = out@;
        push_str(&mut out, " style=\"");
        let ghost head = out@;
        let mut i: usize = 0;
        while i < styles.len()
            invariant
                0 <= i <= styles@.len(),
                decls == styles@.map_values(|p: (&str, &str)| declaration_text(p)),
                out@ == head + join_with(decls.take(i as int), "; "@),
            decreases styles@.len() - i,
        {
            let ghost before = out@;
            if i > 0 {
                push_str(&mut out, "; ");
            }
            let (key, value) = styles[i];
            push_str(&mut out, key);
            push_str(&mut out, ": ");
            push_str(&mut out, value);
            proof {
                assert(decls.take(i + 1).drop_last() =~= decls.take(i as int));
                assert(decls[i as int] == declaration_text(styles@[i as int]));
                if i == 0 {
                    assert(join_with(decls.take(1), "; "@) == decls[0]);
                }
                assert(out@ =~= head + join_with(decls.take(i + 1), "; "@));
            }
            i += 1;
        }
        push_str(&mut out, "\"");
        proof {
            assert(decls.take(styles@.len() as int) =~= decls);
        }
    }
    proof {
        assert(out@ =~= style_attr_text(styles@));
    }
    out
}

/// The group element `render_group` returns.
pub open spec fn group_text(id: Seq<char>, content: Seq<char>, class: Seq<char>) -> Seq<char> {
    "<g id=\""@ + id + "\" class=\""@ + class + "\">"@ + content + "</g>"@
}

/// Renders a complete SVG element group.
pub fn render_group(id: &str, content: &str, class: &str) -> (r: String)
    ensures
        r@ == group_text(id@, content@, class@),
{
    let mut out = String::new();
    push_str(&mut out, "<g id=\"");
    push_str(&mut out, id);
    push_str(&mut out, "\" class=\"");
    push_str(&mut out, class);
    push_str(&mut out, "\">");
    push_str(&mut out, content);
    push_str(&mut out, "</g>");
    proof {
        assert(out@ =~= group_text(id@, content@, class@));
    }
    out
}

} // verus!
