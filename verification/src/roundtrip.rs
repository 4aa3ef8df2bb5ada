//! The proof that the canonical source of a well-formed program parses to
//! that program.

use vstd::prelude::*;
use crate::canon::{
    blank, canonical, closing_bracket, opening_bracket, render_entries, render_entry,
    render_modifier, render_name, render_sub,
};
use crate::grammar::{parse_sub, run, Config, Outcome};
use crate::grapheme::{glyph, lemma_bracket_glyphs, Glyph};
use crate::literal::classify_spec;
use crate::machine::State;
use crate::position::place;
use crate::program::{
    lemma_place_in_wrapper, lemma_wrapper_opens, parse_program, within_wrapper, wrap,
};
use crate::result::ErrorModel;
use crate::shape::{
    all_ok_from, cursor_after, entry_ok, extent, lemma_cursor_is_behind, lemma_extent_is_behind,
    node_ok, token_text, valid_token, well_formed,
};
use crate::value::{NodeModel, ValueModel};

verus! {

/// Whether `code` holds the graphemes `s` from grapheme `index` on.
pub open spec fn holds_at(code: Seq<Seq<char>>, index: nat, s: Seq<Seq<char>>) -> bool {
    &&& index + s.len() <= code.len()
    &&& forall|i: int| 0 <= i < s.len() ==> #[trigger] s[i] == code[index + i]
}

/// Where a code holds two runs of graphemes joined, it holds the first, and
/// the second behind it.
pub proof fn lemma_holds_split(
    code: Seq<Seq<char>>,
    index: nat,
    x: Seq<Seq<char>>,
    y: Seq<Seq<char>>,
)
    requires
        holds_at(code, index, x + y),
    ensures
        holds_at(code, index, x),
        holds_at(code, index + x.len(), y),
{
    assert forall|i: int| 0 <= i < x.len() implies #[trigger] x[i] == code[index + i] by {
        assert((x + y)[i] == x[i]);
    }
    assert forall|i: int| 0 <= i < y.len() implies #[trigger] y[i] == code[index + x.len() + i] by {
        assert((x + y)[x.len() + i] == y[i]);
    }
}

/// The machine with its cursor at grapheme `index` of `code`, and with the
/// line and column of that grapheme.
pub open spec fn at(
    code: Seq<Seq<char>>,
    arena: Seq<NodeModel>,
    node: nat,
    state: State,
    token: Seq<char>,
    index: nat,
) -> Config {
    Config {
        arena,
        node,
        state,
        token,
        index,
        line: place(code, index).0,
        column: place(code, index).1,
    }
}

/// Node `k` while only its first `j` children are read.
pub open spec fn partial(a: Seq<NodeModel>, k: nat, j: nat) -> NodeModel {
    NodeModel {
        name: a[k as int].name,
        children: a[k as int].children.take(j as int),
        modifier: None,
        parent: a[k as int].parent,
    }
}

/// The arena while the first `j` children of sub `k` are read: what stood
/// before the sub, its node, and the nodes of the subs nested in those
/// children.
pub open spec fn grown(pre: Seq<NodeModel>, a: Seq<NodeModel>, k: nat, j: nat) -> Seq<NodeModel> {
    pre.push(partial(a, k, j)) + a.subrange(k as int + 1, cursor_after(a, k, j) as int)
}

/// The arena once sub `k` is read.
pub open spec fn complete(pre: Seq<NodeModel>, a: Seq<NodeModel>, k: nat) -> Seq<NodeModel> {
    pre + a.subrange(k as int, extent(a, k) as int)
}

/// The state in which the machine awaits the closing bracket of sub `k`.
pub open spec fn settled(a: Seq<NodeModel>, k: nat) -> State {
    if a[k as int].modifier is None {
        State::InModifier
    } else {
        State::ModifierEnd
    }
}

/// In a well-formed node the nested subs stand one behind the other, up to
/// the extent of the node.
pub proof fn lemma_cursor_grows(a: Seq<NodeModel>, k: nat, j: nat)
    requires
        node_ok(a, k),
        j <= a[k as int].children.len(),
    ensures
        k < cursor_after(a, k, j) <= cursor_after(a, k, a[k as int].children.len()) <= extent(
            a,
            k,
        ) <= a.len(),
    decreases a[k as int].children.len() - j,
{
    let n = a[k as int].children.len();
    lemma_cursor_is_behind(a, k, j);
    if j < n {
        lemma_cursor_grows(a, k, j + 1);
        assert(entry_ok(a, k, j as int));
        match a[k as int].children[j as int] {
            ValueModel::NodeRef(m) => {
                lemma_extent_is_behind(a, m);
            },
            _ => {},
        }
    } else {
        match a[k as int].modifier {
            Some(ValueModel::NodeRef(m)) => {
                lemma_extent_is_behind(a, m);
            },
            _ => {},
        }
    }
}

/// The canonical source of a sub starts with `[` and holds four brackets at
/// least.
pub proof fn lemma_sub_starts_with_bracket(a: Seq<NodeModel>, k: nat)
    requires
        k < a.len(),
    ensures
        render_sub(a, k).len() >= 4,
        render_sub(a, k)[0] == opening_bracket(),
{
}

/// A nested sub is read back where it stands in the canonical source.
pub proof fn lemma_sub_reads_back(
    a: Seq<NodeModel>,
    k: nat,
    code: Seq<Seq<char>>,
    pre: Seq<NodeModel>,
    index: nat,
    parent: Option<nat>,
)
    requires
        all_ok_from(a, 0),
        k < a.len(),
        pre.len() == k,
        a[k as int].parent == parent,
        holds_at(code, index, render_sub(a, k)),
    ensures
        parse_sub(code, pre, index, place(code, index).0, place(code, index).1, parent)
            == (Outcome::Parsed {
            arena: complete(pre, a, k),
            node: k,
            index: index + render_sub(a, k).len(),
            line: place(code, index + render_sub(a, k).len()).0,
            column: place(code, index + render_sub(a, k).len()).1,
        }),
    decreases a.len() - k, 3nat, 0nat,
{
    lemma_bracket_glyphs();
    assert(node_ok(a, k));
    let n = a[k as int].children.len();
    let name = a[k as int].name;
    let nm = render_name(name);
    let es = render_entries(a, k, 0);
    let md = render_modifier(a, k);
    let open = seq![opening_bracket()];
    let close = seq![closing_bracket()];
    let s1 = open + nm;
    let s2 = s1 + open;
    let s3 = s2 + es;
    let s4 = s3 + close;
    let s5 = s4 + md;
    assert(render_sub(a, k) == s5 + close);
    lemma_holds_split(code, index, s5, close);
    lemma_holds_split(code, index, s4, md);
    lemma_holds_split(code, index, s3, close);
    lemma_holds_split(code, index, s2, es);
    lemma_holds_split(code, index, s1, open);
    lemma_holds_split(code, index, open, nm);
    assert(open[0] == code[index as int]);
    assert(open[0] == code[index as int + s1.len()]);
    assert(close[0] == code[index as int + s3.len()]);
    assert(close[0] == code[index as int + s5.len()]);
    let fresh = pre.push(NodeModel::fresh(parent));
    let c0 = at(code, fresh, k, State::Start, Seq::empty(), index);
    let c1 = at(code, fresh, k, State::SubOpen, Seq::empty(), index + 1);
    assert(run(code, c0) == run(code, c1));
    let at_body = index + s2.len();
    let g0 = grown(pre, a, k, 0);
    assert(a[k as int].children.take(0) =~= Seq::empty());
    assert(g0 =~= pre.push(partial(a, k, 0)));
    let c2 = at(code, g0, k, State::InBody, Seq::empty(), at_body);
    if name.len() == 0 {
        assert(name =~= Seq::empty());
        assert(g0 =~= fresh);
        assert(run(code, c1) == run(code, c2));
    } else {
        assert(nm[0] == code[index as int + 1]);
        let named = at(code, fresh, k, State::InName, name, index + 2);
        assert(run(code, c1) == run(code, named));
        assert(g0 =~= fresh.update(k as int, fresh[k as int].with_name(name)));
        assert(run(code, named) == run(code, c2));
    }
    lemma_entries_read_back(a, k, 0, code, pre, at_body);
    let at_close = at_body + es.len();
    let gn = grown(pre, a, k, n);
    let c3 = at(code, gn, k, State::InBody, Seq::empty(), at_close);
    let c4 = at(code, gn, k, State::InModifier, Seq::empty(), at_close + 1);
    assert(run(code, c3) == run(code, c4));
    lemma_modifier_reads_back(a, k, code, pre, at_close + 1);
    let at_end = at_close + 1 + md.len();
    let c5 = at(code, complete(pre, a, k), k, settled(a, k), Seq::empty(), at_end);
    let c6 = at(code, complete(pre, a, k), k, State::Done, Seq::empty(), at_end + 1);
    assert(run(code, c5) == run(code, c6));
    assert(c0 == Config {
        arena: pre.push(NodeModel::fresh(parent)),
        node: pre.len(),
        state: State::Start,
        token: Seq::empty(),
        index,
        line: place(code, index).0,
        column: place(code, index).1,
    });
}

/// The children of a sub are read back where they stand in the canonical
/// source.
pub proof fn lemma_entries_read_back(
    a: Seq<NodeModel>,
    k: nat,
    j: nat,
    code: Seq<Seq<char>>,
    pre: Seq<NodeModel>,
    index: nat,
)
    requires
        all_ok_from(a, 0),
        k < a.len(),
        pre.len() == k,
        j <= a[k as int].children.len(),
        holds_at(code, index, render_entries(a, k, j)),
    ensures
        run(code, at(code, grown(pre, a, k, j), k, State::InBody, Seq::empty(), index))
            == run(
            code,
            at(
                code,
                grown(pre, a, k, a[k as int].children.len()),
                k,
                State::InBody,
                Seq::empty(),
                index + render_entries(a, k, j).len(),
            ),
        ),
    decreases a.len() - k, 2nat, a[k as int].children.len() - j,
{
    let n = a[k as int].children.len();
    if j < n {
        lemma_bracket_glyphs();
        assert(node_ok(a, k));
        assert(entry_ok(a, k, j as int));
        lemma_cursor_grows(a, k, j);
        lemma_cursor_grows(a, k, j + 1);
        let v = a[k as int].children[j as int];
        let first = render_entry(a, k, j);
        let rest = render_entries(a, k, j + 1);
        lemma_holds_split(code, index, first, rest);
        let gj = grown(pre, a, k, j);
        let gj1 = grown(pre, a, k, j + 1);
        let c0 = at(code, gj, k, State::InBody, Seq::empty(), index);
        assert(a[k as int].children.take(j as int + 1) =~= a[k as int].children.take(j as int).push(v));
        assert(gj[k as int] == partial(a, k, j));
        match v {
            ValueModel::NodeRef(m) => {
                lemma_sub_starts_with_bracket(a, m);
                assert(first[0] == code[index as int]);
                lemma_sub_reads_back(a, m, code, gj, index, Some(k));
                lemma_extent_is_behind(a, m);
                let arena = complete(gj, a, m);
                let next = index + first.len();
                assert(arena[k as int] == partial(a, k, j));
                assert(gj1 =~= arena.update(
                    k as int,
                    arena[k as int].with_child(ValueModel::NodeRef(m)),
                ));
                let c1 = at(code, gj1, k, State::InBody, Seq::empty(), next);
                assert(run(code, c0) == run(code, c1));
                lemma_entries_read_back(a, k, j + 1, code, pre, next);
            },
            _ => {
                let text = token_text(v);
                assert(valid_token(v));
                assert(first[0] == code[index as int]);
                assert(first[1] == code[index as int + 1]);
                let c1 = at(code, gj, k, State::InValue, text, index + 1);
                assert(run(code, c0) == run(code, c1));
                assert(gj1 =~= gj.update(k as int, gj[k as int].with_child(classify_spec(text))));
                let c2 = at(code, gj1, k, State::InBody, Seq::empty(), index + 1);
                assert(run(code, c1) == run(code, c2));
                let c3 = at(code, gj1, k, State::InBody, Seq::empty(), index + 2);
                assert(run(code, c2) == run(code, c3));
                lemma_entries_read_back(a, k, j + 1, code, pre, index + 2);
            },
        }
    }
}

/// The modifier of a sub is read back where it stands in the canonical
/// source, if a blank or a closing bracket follows it.
pub proof fn lemma_modifier_reads_back(
    a: Seq<NodeModel>,
    k: nat,
    code: Seq<Seq<char>>,
    pre: Seq<NodeModel>,
    index: nat,
)
    requires
        all_ok_from(a, 0),
        k < a.len(),
        pre.len() == k,
        holds_at(code, index, render_modifier(a, k)),
        index + render_modifier(a, k).len() < code.len(),
        glyph(code[index as int + render_modifier(a, k).len()]) == Glyph::Close || glyph(
            code[index as int + render_modifier(a, k).len()],
        ) == Glyph::Space,
    ensures
        run(
            code,
            at(
                code,
                grown(pre, a, k, a[k as int].children.len()),
                k,
                State::InModifier,
                Seq::empty(),
                index,
            ),
        ) == run(
            code,
            at(
                code,
                complete(pre, a, k),
                k,
                settled(a, k),
                Seq::empty(),
                index + render_modifier(a, k).len(),
            ),
        ),
    decreases a.len() - k, 2nat, 0nat,
{
    lemma_bracket_glyphs();
    assert(node_ok(a, k));
    let n = a[k as int].children.len();
    lemma_cursor_grows(a, k, n);
    let gn = grown(pre, a, k, n);
    let md = render_modifier(a, k);
    let c0 = at(code, gn, k, State::InModifier, Seq::empty(), index);
    assert(a[k as int].children.take(n as int) =~= a[k as int].children);
    assert(gn[k as int] == partial(a, k, n));
    match a[k as int].modifier {
        None => {
            assert(partial(a, k, n) == a[k as int]);
            assert(gn =~= complete(pre, a, k));
        },
        Some(ValueModel::NodeRef(m)) => {
            lemma_sub_starts_with_bracket(a, m);
            assert(md[0] == code[index as int]);
            lemma_sub_reads_back(a, m, code, gn, index, Some(k));
            lemma_extent_is_behind(a, m);
            let arena = complete(gn, a, m);
            assert(arena[k as int] == partial(a, k, n));
            assert(complete(pre, a, k) =~= arena.update(
                k as int,
                arena[k as int].with_modifier(ValueModel::NodeRef(m)),
            ));
        },
        Some(v) => {
            let text = token_text(v);
            assert(valid_token(v));
            assert(md[0] == code[index as int]);
            let c1 = at(code, gn, k, State::InModifierName, text, index + 1);
            assert(run(code, c0) == run(code, c1));
            assert(complete(pre, a, k) =~= gn.update(
                k as int,
                gn[k as int].with_modifier(classify_spec(text)),
            ));
        },
    }
}

/// Round trip: the canonical source of a well-formed program parses, and to
/// that very program.
pub proof fn lemma_canonical_reads_back(a: Seq<NodeModel>)
    requires
        well_formed(a),
    ensures
        parse_program(canonical(a)) == Ok::<Seq<NodeModel>, ErrorModel>(a),
{
    lemma_bracket_glyphs();
    let body = canonical(a);
    let code = wrap(body);
    let n = a[0].children.len();
    let es = render_entries(a, 0, 0);
    let md = render_modifier(a, 0);
    let pre = Seq::<NodeModel>::empty();
    assert(node_ok(a, 0));
    lemma_cursor_grows(a, 0, n);
    lemma_wrapper_opens(body);
    lemma_place_in_wrapper(body, 0);
    let g0 = grown(pre, a, 0, 0);
    assert(a[0].children.take(0) =~= Seq::empty());
    assert(a[0].name =~= Seq::empty());
    assert(g0 =~= seq![NodeModel::fresh(None)]);
    assert(within_wrapper() == at(code, g0, 0, State::InBody, Seq::empty(), 3));
    assert forall|i: int| 0 <= i < body.len() implies #[trigger] body[i] == code[3 + i] by {}
    assert(holds_at(code, 3, body));
    let gn = grown(pre, a, 0, n);
    let at_close = 3 + es.len();
    assert(a[0].children.take(n as int) =~= a[0].children);
    if a[0].modifier is None {
        assert(body == es);
        lemma_entries_read_back(a, 0, 0, code, pre, 3);
        assert(gn =~= a);
        assert(code[at_close as int] == seq!['\n']);
        assert(code[at_close as int + 1] == seq![']']);
        assert(code[at_close as int + 2] == seq![']']);
        let c1 = at(code, a, 0, State::InBody, Seq::empty(), at_close);
        let c2 = at(code, a, 0, State::InBody, Seq::empty(), at_close + 1);
        let c3 = at(code, a, 0, State::InModifier, Seq::empty(), at_close + 2);
        let c4 = at(code, a, 0, State::Done, Seq::empty(), at_close + 3);
        assert(run(code, c1) == run(code, c2));
        assert(run(code, c2) == run(code, c3));
        assert(run(code, c3) == run(code, c4));
    } else {
        let close = seq![closing_bracket()];
        assert(body == es + close + md);
        lemma_holds_split(code, 3, es + close, md);
        lemma_holds_split(code, 3, es, close);
        lemma_entries_read_back(a, 0, 0, code, pre, 3);
        assert(close[0] == code[at_close as int]);
        let at_end = at_close + 1 + md.len();
        assert(code[at_end as int] == seq!['\n']);
        assert(code[at_end as int + 1] == seq![']']);
        let c1 = at(code, gn, 0, State::InBody, Seq::empty(), at_close);
        let c2 = at(code, gn, 0, State::InModifier, Seq::empty(), at_close + 1);
        assert(run(code, c1) == run(code, c2));
        lemma_modifier_reads_back(a, 0, code, pre, at_close + 1);
        assert(complete(pre, a, 0) =~= a);
        let c3 = at(code, a, 0, State::ModifierEnd, Seq::empty(), at_end);
        let c4 = at(code, a, 0, State::ModifierEnd, Seq::empty(), at_end + 1);
        let c5 = at(code, a, 0, State::Done, Seq::empty(), at_end + 2);
        assert(run(code, c3) == run(code, c4));
        assert(run(code, c4) == run(code, c5));
    }
}

} // verus!
