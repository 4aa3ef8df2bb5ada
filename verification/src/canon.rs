//! The canonical source of a program: its brackets, names and tokens, with
//! no blanks but one behind each token of a body, and with every number
//! written without leading zeros.

use vstd::prelude::*;
use crate::digits::render_decimal;
use crate::shape::token_text;
use crate::value::{Node, NodeModel, Value, ValueModel};

verus! {

/// The grapheme `[`.
pub open spec fn opening_bracket() -> Seq<char> {
    seq!['[']
}

/// The grapheme `]`.
pub open spec fn closing_bracket() -> Seq<char> {
    seq![']']
}

/// The grapheme that the canonical source puts behind a token: a space.
pub open spec fn blank() -> Seq<char> {
    seq![' ']
}

/// A name as one unit; no name as nothing.
pub open spec fn render_name(name: Seq<char>) -> Seq<Seq<char>> {
    if name.len() == 0 {
        Seq::empty()
    } else {
        seq![name]
    }
}

/// The sub `k`: `[`, its name, `[`, its body, `]`, its modifier, `]`.
pub open spec fn render_sub(a: Seq<NodeModel>, k: nat) -> Seq<Seq<char>>
    decreases a.len() - k, 3nat, 0nat,
{
    if k >= a.len() {
        Seq::empty()
    } else {
        seq![opening_bracket()] + render_name(a[k as int].name) + seq![opening_bracket()]
            + render_entries(a, k, 0) + seq![closing_bracket()] + render_modifier(a, k)
            + seq![closing_bracket()]
    }
}

/// The children of sub `k` from child `from` on: a nested sub as it is, a
/// token with a blank behind it.
pub open spec fn render_entries(a: Seq<NodeModel>, k: nat, from: nat) -> Seq<Seq<char>>
    decreases a.len() - k, 2nat, a[k as int].children.len() - from,
{
    if k >= a.len() || from >= a[k as int].children.len() {
        Seq::empty()
    } else {
        render_entry(a, k, from) + render_entries(a, k, from + 1)
    }
}

/// Child `j` of sub `k`.
pub open spec fn render_entry(a: Seq<NodeModel>, k: nat, j: nat) -> Seq<Seq<char>>
    decreases a.len() - k, 1nat, 0nat,
{
    if k >= a.len() {
        Seq::empty()
    } else {
        match a[k as int].children[j as int] {
            ValueModel::NodeRef(m) => if k < m < a.len() {
                render_sub(a, m)
            } else {
                Seq::empty()
            },
            v => seq![token_text(v), blank()],
        }
    }
}

/// The modifier of sub `k`.
pub open spec fn render_modifier(a: Seq<NodeModel>, k: nat) -> Seq<Seq<char>>
    decreases a.len() - k, 1nat, 0nat,
{
    if k >= a.len() {
        Seq::empty()
    } else {
        match a[k as int].modifier {
            None => Seq::empty(),
            Some(ValueModel::NodeRef(m)) => if k < m < a.len() {
                render_sub(a, m)
            } else {
                Seq::empty()
            },
            Some(v) => seq![token_text(v)],
        }
    }
}

/// The canonical source of a program: what stands within its wrapper. Where
/// the wrapper has a modifier, the source closes the wrapper's body itself.
pub open spec fn canonical(a: Seq<NodeModel>) -> Seq<Seq<char>> {
    if a.len() == 0 {
        Seq::empty()
    } else if a[0].modifier is None {
        render_entries(a, 0, 0)
    } else {
        render_entries(a, 0, 0) + seq![closing_bracket()] + render_modifier(a, 0)
    }
}

/// Writes a token down.
pub fn token_string(v: &Value) -> (r: String)
    ensures
        r@ == token_text(v.deep_view()),
{
    proof {
        reveal_strlit("&");
        reveal_strlit("-");
    }
    match v {
        Value::NodeRef(_) => String::new(),
        Value::BackReference(n) => {
            let mut r = String::from_str("&");
            r.append(render_decimal(*n as u64).as_str());
            assert(r@ =~= token_text(v.deep_view()));
            r
        },
        Value::Name(s) => s.clone(),
        Value::Integer(i) => {
            if *i >= 0 {
                render_decimal(*i as u64)
            } else {
                let size: u64 = ((-(*i + 1)) as u64) + 1;
                let mut r = String::from_str("-");
                r.append(render_decimal(size).as_str());
                assert(r@ =~= token_text(v.deep_view()));
                r
            }
        },
        Value::Float(s) => s.clone(),
    }
}

/// `[` as a string.
fn opening_string() -> (r: String)
    ensures
        r@ == opening_bracket(),
{
    proof {
        reveal_strlit("[");
    }
    let r = String::from_str("[");
    assert(r@ =~= opening_bracket());
    r
}

/// `]` as a string.
fn closing_string() -> (r: String)
    ensures
        r@ == closing_bracket(),
{
    proof {
        reveal_strlit("]");
    }
    let r = String::from_str("]");
    assert(r@ =~= closing_bracket());
    r
}

/// Appends one grapheme to `out`.
fn push_unit(out: &mut Vec<String>, unit: String)
    ensures
        final(out).deep_view() == old(out).deep_view().push(unit@),
{
    out.push(unit);
    assert(out.deep_view() =~= old(out).deep_view().push(unit@));
}

/// Appends a closing bracket to `out`.
pub fn write_closing(out: &mut Vec<String>)
    ensures
        final(out).deep_view() == old(out).deep_view().push(closing_bracket()),
{
    push_unit(out, closing_string());
}

/// Appends the canonical source of sub `k` to `out`.
pub fn write_sub(nodes: &Vec<Node>, k: usize, out: &mut Vec<String>)
    ensures
        final(out).deep_view() == old(out).deep_view() + render_sub(nodes.deep_view(), k as nat),
    decreases nodes.len() - k, 1nat,
{
    let ghost a = nodes.deep_view();
    let ghost start = out.deep_view();
    if k >= nodes.len() {
        assert(out.deep_view() =~= start + render_sub(a, k as nat));
        return ;
    }
    assert(a[k as int] == nodes[k as int].deep_view());
    push_unit(out, opening_string());
    if !nodes[k].name.as_str().is_empty() {
        push_unit(out, nodes[k].name.clone());
    }
    let ghost s1 = seq![opening_bracket()] + render_name(a[k as int].name);
    assert(out.deep_view() =~= start + s1);
    push_unit(out, opening_string());
    let ghost s2 = s1 + seq![opening_bracket()];
    assert(out.deep_view() =~= start + s2);
    write_entries(nodes, k, out);
    let ghost s3 = s2 + render_entries(a, k as nat, 0);
    assert(out.deep_view() =~= start + s3);
    push_unit(out, closing_string());
    let ghost s4 = s3 + seq![closing_bracket()];
    assert(out.deep_view() =~= start + s4);
    write_modifier(nodes, k, out);
    let ghost s5 = s4 + render_modifier(a, k as nat);
    assert(out.deep_view() =~= start + s5);
    push_unit(out, closing_string());
    assert(render_sub(a, k as nat) == s5 + seq![closing_bracket()]);
    assert(out.deep_view() =~= start + render_sub(a, k as nat));
}

/// Appends the canonical source of the children of sub `k` to `out`.
pub fn write_entries(nodes: &Vec<Node>, k: usize, out: &mut Vec<String>)
    requires
        k < nodes.len(),
    ensures
        final(out).deep_view() == old(out).deep_view() + render_entries(
            nodes.deep_view(),
            k as nat,
            0,
        ),
    decreases nodes.len() - k, 0nat,
{
    let ghost a = nodes.deep_view();
    let ghost start = out.deep_view();
    assert(a[k as int] == nodes[k as int].deep_view());
    let n: usize = nodes[k].children.len();
    let mut j: usize = 0;
    while j < n
        invariant
            j <= n,
            k < nodes.len(),
            a == nodes.deep_view(),
            n == nodes[k as int].children.len(),
            n == a[k as int].children.len(),
            out.deep_view() + render_entries(a, k as nat, j as nat) == start + render_entries(
                a,
                k as nat,
                0,
            ),
        decreases n - j,
    {
        let ghost before = out.deep_view();
        assert(a[k as int].children[j as int] == nodes[k as int].children[j as int].deep_view());
        match &nodes[k].children[j] {
            Value::NodeRef(m) => {
                if k < *m && *m < nodes.len() {
                    write_sub(nodes, *m, out);
                }
            },
            v => {
                push_unit(out, token_string(v));
                proof {
                    reveal_strlit(" ");
                }
                push_unit(out, String::from_str(" "));
                assert(" "@ =~= blank());
                assert(out.deep_view() =~= before + seq![token_text(v.deep_view()), blank()]);
            },
        }
        assert(out.deep_view() =~= before + render_entry(a, k as nat, j as nat));
        assert(before + render_entries(a, k as nat, j as nat) =~= out.deep_view()
            + render_entries(a, k as nat, (j + 1) as nat));
        j = j + 1;
    }
    assert(out.deep_view() + render_entries(a, k as nat, n as nat) =~= out.deep_view());
}

/// Appends the canonical source of the modifier of sub `k` to `out`.
pub fn write_modifier(nodes: &Vec<Node>, k: usize, out: &mut Vec<String>)
    requires
        k < nodes.len(),
    ensures
        final(out).deep_view() == old(out).deep_view() + render_modifier(
            nodes.deep_view(),
            k as nat,
        ),
    decreases nodes.len() - k, 0nat,
{
    let ghost a = nodes.deep_view();
    let ghost start = out.deep_view();
    assert(a[k as int] == nodes[k as int].deep_view());
    match &nodes[k].modifier {
        None => {},
        Some(Value::NodeRef(m)) => {
            if k < *m && *m < nodes.len() {
                write_sub(nodes, *m, out);
            }
        },
        Some(v) => {
            push_unit(out, token_string(v));
        },
    }
    assert(out.deep_view() =~= start + render_modifier(a, k as nat));
}

} // verus!
