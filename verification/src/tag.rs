//! String assembly for markup emission: attribute strings, inline
//! style strings, and whole tags, each with its exact text stated.

use vstd::prelude::*;
use vstd::string::*;

verus! {

/// ` key="value"` for each pair, in order.
pub open spec fn attrs_str(s: Seq<(Seq<char>, Seq<char>)>) -> Seq<char>
    decreases s.len(),
{
    if s.len() == 0 {
        Seq::<char>::empty()
    } else {
        attrs_str(s.drop_last()) + " "@ + s.last().0 + "=\""@ + s.last().1 + "\""@
    }
}

/// `key:value;` for each pair, in order.
pub open spec fn styles_body(s: Seq<(Seq<char>, Seq<char>)>) -> Seq<char>
    decreases s.len(),
{
    if s.len() == 0 {
        Seq::<char>::empty()
    } else {
        styles_body(s.drop_last()) + s.last().0 + ":"@ + s.last().1 + ";"@
    }
}

/// ` style="..."`, or nothing when no style is set.
pub open spec fn style_attr(s: Seq<(Seq<char>, Seq<char>)>) -> Seq<char> {
    if s.len() == 0 {
        Seq::<char>::empty()
    } else {
        " style=\""@ + styles_body(s) + "\""@
    }
}

/// `<name attrs style>` built from the parts.
pub open spec fn tag_open(
    name: Seq<char>,
    attrs: Seq<(Seq<char>, Seq<char>)>,
    styles: Seq<(Seq<char>, Seq<char>)>,
) -> Seq<char> {
    "<"@ + name + attrs_str(attrs) + style_attr(styles) + ">"@
}

/// `</name>`.
pub open spec fn tag_close(name: Seq<char>) -> Seq<char> {
    "</"@ + name + ">"@
}

/// A whole element with its content.
pub open spec fn tag_render(
    name: Seq<char>,
    attrs: Seq<(Seq<char>, Seq<char>)>,
    styles: Seq<(Seq<char>, Seq<char>)>,
    content: Seq<char>,
) -> Seq<char> {
    tag_open(name, attrs, styles) + content + tag_close(name)
}

/// Append ` key="value"` for each pair.
pub fn push_attrs(out: &mut String, pairs: &Vec<(String, String)>)
    ensures
        final(out)@ == old(out)@ + attrs_str(pairs.deep_view()),
{
    let n = pairs.len();
    let mut i: usize = 0;
    while i < n
        invariant
            n == pairs@.len(),
            i <= n,
            out@ == old(out)@ + attrs_str(pairs.deep_view().take(i as int)),
        decreases n - i,
    {
        out.append(" ");
        out.append(pairs[i].0.as_str());
        out.append("=\"");
        out.append(pairs[i].1.as_str());
        out.append("\"");
        proof {
            assert(pairs.deep_view().take(i + 1).drop_last() =~= pairs.deep_view().take(i as int));
            assert(pairs.deep_view().take(i + 1).last() == pairs.deep_view()[i as int]);
            assert(out@ =~= old(out)@ + attrs_str(pairs.deep_view().take(i + 1)));
        }
        i = i + 1;
    }
    proof {
        assert(pairs.deep_view().take(n as int) =~= pairs.deep_view());
    }
}

/// Append ` style="..."` when any style is present.
pub fn push_style_attr(out: &mut String, styles: &Vec<(String, String)>)
    ensures
        final(out)@ == old(out)@ + style_attr(styles.deep_view()),
{
    let n = styles.len();
    if n == 0 {
        proof {
            assert(old(out)@ + style_attr(styles.deep_view()) =~= old(out)@);
        }
        return ;
    }
    out.append(" style=\"");
    let mut i: usize = 0;
    while i < n
        invariant
            n == styles@.len(),
            n > 0,
            i <= n,
            out@ == old(out)@ + " style=\""@ + styles_body(styles.deep_view().take(i as int)),
        decreases n - i,
    {
        out.append(styles[i].0.as_str());
        out.append(":");
        out.append(styles[i].1.as_str());
        out.append(";");
        proof {
            assert(styles.deep_view().take(i + 1).drop_last() =~= styles.deep_view().take(
                i as int,
            ));
            assert(styles.deep_view().take(i + 1).last() == styles.deep_view()[i as int]);
            assert(out@ =~= old(out)@ + " style=\""@ + styles_body(styles.deep_view().take(i + 1)));
        }
        i = i + 1;
    }
    out.append("\"");
    proof {
        assert(styles.deep_view().take(n as int) =~= styles.deep_view());
        assert(out@ =~= old(out)@ + style_attr(styles.deep_view()));
    }
}

} // verus!
