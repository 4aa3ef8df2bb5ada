//! A picture of a parsed program as text: one line for every sub and every
//! value, indented by the depth of the sub that holds it.

use vstd::prelude::*;
use crate::canon::token_string;
use crate::digits::{decimal_digits, render_decimal};
use crate::shape::token_text;
use crate::value::{Node, NodeModel, Value, ValueModel};

verus! {

/// `n` spaces.
pub open spec fn spaces(n: nat) -> Seq<char>
    decreases n,
{
    if n == 0 {
        Seq::empty()
    } else {
        spaces((n - 1) as nat) + " "@
    }
}

/// The indentation at a depth: for every level a bar and `stride` spaces.
pub open spec fn indent_text(depth: nat, stride: nat) -> Seq<char>
    decreases depth,
{
    if depth == 0 {
        Seq::empty()
    } else {
        indent_text((depth - 1) as nat, stride) + "|"@ + spaces(stride)
    }
}

/// The first line of a sub: `- sub`, and its name in brackets if it has one.
pub open spec fn head_text(name: Seq<char>) -> Seq<char> {
    if name.len() == 0 {
        "- sub"@ + "\n"@
    } else {
        "- sub"@ + " ("@ + name + ")"@ + "\n"@
    }
}

/// The picture of the sub `k`, which stands at the given depth: its first
/// line; then, if it has children, `subs:` and a line for each of them; then,
/// if it has a modifier, `mod:` and a line for that. The picture of a nested
/// sub starts in the line of its entry, one level deeper.
pub open spec fn tree_text(a: Seq<NodeModel>, k: nat, depth: nat, stride: nat) -> Seq<char>
    decreases a.len() - k, 2nat, 0nat,
{
    if k >= a.len() {
        Seq::empty()
    } else {
        let head = head_text(a[k as int].name);
        let body = if a[k as int].children.len() == 0 {
            Seq::empty()
        } else {
            indent_text(depth, stride) + "subs:"@ + rows_text(a, k, 0, depth, stride)
        };
        let tail = match a[k as int].modifier {
            None => Seq::empty(),
            Some(v) => "\n"@ + indent_text(depth, stride) + "mod:\n"@ + indent_text(depth, stride)
                + entry_text(a, k, v, depth, stride),
        };
        head + body + tail
    }
}

/// The lines of the children of sub `k` from child `from` on.
pub open spec fn rows_text(a: Seq<NodeModel>, k: nat, from: nat, depth: nat, stride: nat) -> Seq<
    char,
>
    decreases a.len() - k, 1nat, a[k as int].children.len() - from,
{
    if k >= a.len() || from >= a[k as int].children.len() {
        Seq::empty()
    } else {
        "\n"@ + indent_text(depth, stride) + entry_text(
            a,
            k,
            a[k as int].children[from as int],
            depth,
            stride,
        ) + rows_text(a, k, from + 1, depth, stride)
    }
}

/// One value of sub `k`: a nested sub as its own picture, a name as
/// `-> (name)`, a back-reference as `-> &N`, a number as `_ ` and the number.
/// A float is shown as it was written.
pub open spec fn entry_text(a: Seq<NodeModel>, k: nat, v: ValueModel, depth: nat, stride: nat) -> Seq<
    char,
>
    decreases a.len() - k, 0nat, 0nat,
{
    match v {
        ValueModel::NodeRef(m) => if k < m < a.len() {
            tree_text(a, m, depth + 1, stride)
        } else {
            Seq::empty()
        },
        ValueModel::Name(s) => "-> ("@ + s + ")"@,
        ValueModel::BackReference(n) => "-> &"@ + decimal_digits(n),
        ValueModel::Integer(i) => "_ "@ + token_text(v),
        ValueModel::Float(s) => "_ "@ + s,
    }
}

/// Appends the indentation at a depth to `out`.
fn write_indent(out: &mut String, depth: usize, stride: usize)
    ensures
        final(out)@ == old(out)@ + indent_text(depth as nat, stride as nat),
{
    let ghost start = out@;
    let mut d: usize = 0;
    assert(out@ =~= start + indent_text(0, stride as nat));
    while d < depth
        invariant
            d <= depth,
            out@ == start + indent_text(d as nat, stride as nat),
        decreases depth - d,
    {
        let ghost level = out@;
        out.append("|");
        let mut i: usize = 0;
        assert(out@ =~= level + "|"@ + spaces(0));
        while i < stride
            invariant
                i <= stride,
                out@ == level + "|"@ + spaces(i as nat),
            decreases stride - i,
        {
            out.append(" ");
            assert(out@ =~= level + "|"@ + spaces((i + 1) as nat));
            i = i + 1;
        }
        assert(out@ =~= start + indent_text((d + 1) as nat, stride as nat));
        d = d + 1;
    }
}

/// Appends the picture of one value of sub `k` to `out`.
fn write_entry(
    nodes: &Vec<Node>,
    k: usize,
    v: &Value,
    depth: usize,
    stride: usize,
    out: &mut String,
)
    requires
        k < nodes.len(),
        depth + (nodes.len() - k) <= usize::MAX,
    ensures
        final(out)@ == old(out)@ + entry_text(
            nodes.deep_view(),
            k as nat,
            v.deep_view(),
            depth as nat,
            stride as nat,
        ),
    decreases nodes.len() - k, 0nat,
{
    let ghost a = nodes.deep_view();
    let ghost start = out@;
    match v {
        Value::NodeRef(m) => {
            if k < *m && *m < nodes.len() {
                write_tree(nodes, *m, depth + 1, stride, out);
            }
        },
        Value::Name(s) => {
            out.append("-> (");
            out.append(s.as_str());
            out.append(")");
        },
        Value::BackReference(n) => {
            out.append("-> &");
            out.append(render_decimal(*n as u64).as_str());
        },
        Value::Integer(_) => {
            out.append("_ ");
            out.append(token_string(v).as_str());
        },
        Value::Float(s) => {
            out.append("_ ");
            out.append(s.as_str());
        },
    }
    assert(out@ =~= start + entry_text(
        a,
        k as nat,
        v.deep_view(),
        depth as nat,
        stride as nat,
    ));
}

/// Appends the picture of the sub `k`, which stands at the given depth, to
/// `out`.
pub fn write_tree(nodes: &Vec<Node>, k: usize, depth: usize, stride: usize, out: &mut String)
    requires
        k < nodes.len(),
        depth + (nodes.len() - k) <= usize::MAX,
    ensures
        final(out)@ == old(out)@ + tree_text(
            nodes.deep_view(),
            k as nat,
            depth as nat,
            stride as nat,
        ),
    decreases nodes.len() - k, 2nat,
{
    let ghost a = nodes.deep_view();
    let ghost start = out@;
    let ghost inset = indent_text(depth as nat, stride as nat);
    assert(a[k as int] == nodes[k as int].deep_view());
    out.append("- sub");
    if !nodes[k].name.as_str().is_empty() {
        out.append(" (");
        out.append(nodes[k].name.as_str());
        out.append(")");
    }
    out.append("\n");
    let ghost head = head_text(a[k as int].name);
    assert(out@ =~= start + head);
    let n: usize = nodes[k].children.len();
    let ghost body = if n == 0 {
        Seq::empty()
    } else {
        inset + "subs:"@ + rows_text(a, k as nat, 0, depth as nat, stride as nat)
    };
    if n > 0 {
        write_indent(out, depth, stride);
        out.append("subs:");
        let ghost rows = out@;
        assert(rows =~= start + head + inset + "subs:"@);
        let mut j: usize = 0;
        while j < n
            invariant
                j <= n,
                k < nodes.len(),
                depth + (nodes.len() - k) <= usize::MAX,
                a == nodes.deep_view(),
                n == nodes[k as int].children.len(),
                n == a[k as int].children.len(),
                inset == indent_text(depth as nat, stride as nat),
                out@ + rows_text(a, k as nat, j as nat, depth as nat, stride as nat) == rows
                    + rows_text(a, k as nat, 0, depth as nat, stride as nat),
            decreases n - j,
        {
            let ghost before = out@;
            assert(a[k as int].children[j as int] == nodes[k as int].children[j as int].deep_view());
            out.append("\n");
            write_indent(out, depth, stride);
            write_entry(nodes, k, &nodes[k].children[j], depth, stride, out);
            assert(before + rows_text(a, k as nat, j as nat, depth as nat, stride as nat)
                =~= out@ + rows_text(a, k as nat, (j + 1) as nat, depth as nat, stride as nat));
            j = j + 1;
        }
        assert(out@ + rows_text(a, k as nat, n as nat, depth as nat, stride as nat) =~= out@);
        assert(out@ =~= start + head + body);
    }
    assert(out@ =~= start + head + body);
    let ghost middle = out@;
    match &nodes[k].modifier {
        None => {},
        Some(v) => {
            out.append("\n");
            write_indent(out, depth, stride);
            out.append("mod:\n");
            write_indent(out, depth, stride);
            write_entry(nodes, k, v, depth, stride, out);
            assert(out@ =~= middle + ("\n"@ + inset + "mod:\n"@ + inset + entry_text(
                a,
                k as nat,
                v.deep_view(),
                depth as nat,
                stride as nat,
            )));
        },
    }
    assert(out@ =~= start + tree_text(a, k as nat, depth as nat, stride as nat));
}

} // verus!
