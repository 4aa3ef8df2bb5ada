//! The proof that the parser leaves a well-formed arena.

use vstd::prelude::*;
use crate::grammar::{parse_sub, rank, run, Config, Outcome};
use crate::grapheme::{glyph, Glyph};
use crate::literal::classify_spec;
use crate::machine::{transition, Action, State};
use crate::program::{lemma_wrapper_opens, parse_program, within_wrapper, wrap};
use crate::shape::{
    all_enclosed_behind,
    well_formed, all_ok_from, cursor_after, entry_ok, extends_from, extent,
    lemma_classified_is_valid, lemma_cursor_extends, lemma_extent_extends, lemma_join_other,
    lemma_node_ok_extends, name_ok, node_ok, valid_token,
};
use crate::structure::{keeps, lemma_parse_sub_keeps};
use crate::value::{NodeModel, ValueModel};

verus! {

/// Whether sub `k` is the last that was opened at its level: it and all nodes
/// behind it are well formed, and they are its own, each with a parent.
pub open spec fn sound(a: Seq<NodeModel>, k: nat, parent: Option<nat>) -> bool {
    &&& k < a.len()
    &&& a[k as int].parent == parent
    &&& extent(a, k) == a.len()
    &&& all_ok_from(a, k)
    &&& all_enclosed_behind(a, k)
}

/// Whether the sub has no body yet: its node is the last of the arena, and
/// has neither children nor a modifier.
pub open spec fn bare(c: Config) -> bool {
    &&& c.arena.len() == c.node + 1
    &&& c.current().children.len() == 0
    &&& c.current().modifier is None
}

/// Whether the node of the sub is still as it was opened.
pub open spec fn untouched(c: Config) -> bool {
    bare(c) && c.current().name.len() == 0
}

/// What holds of the machine in each of its states.
pub open spec fn ready(c: Config, parent: Option<nat>) -> bool {
    &&& sound(c.arena, c.node, parent)
    &&& match c.state {
        State::Start => untouched(c),
        State::SubOpen => untouched(c),
        State::NameEnd => bare(c),
        State::InName => untouched(c) && glyph(c.token) == Glyph::Other,
        State::InBody => c.current().modifier is None,
        State::InModifier => c.current().modifier is None,
        State::InValue => c.current().modifier is None && glyph(c.token) == Glyph::Other,
        State::InModifierName => c.current().modifier is None && glyph(c.token)
            == Glyph::Other,
        State::ModifierEnd => true,
        State::Done => true,
    }
}

/// Whether the sub's name is settled in this state.
pub open spec fn past_name(state: State) -> bool {
    !(state == State::Start || state == State::SubOpen || state == State::InName || state
        == State::NameEnd)
}

/// Whether a run that ended well left the sub `k` sound, with the name that
/// it had if that was settled.
pub open spec fn ends_sound(c: Config, parent: Option<nat>, outcome: Outcome) -> bool {
    outcome matches Outcome::Parsed { arena, .. } ==> {
        &&& sound(arena, c.node, parent)
        &&& past_name(c.state) ==> arena[c.node as int].name == c.current().name
    }
}

/// A sub that was just opened stays sound when it is named.
proof fn lemma_named(a: Seq<NodeModel>, k: nat, parent: Option<nat>, name: Seq<char>)
    requires
        sound(a, k, parent),
        a.len() == k + 1,
        a[k as int].children.len() == 0,
        a[k as int].modifier is None,
        name_ok(name),
    ensures
        sound(a.update(k as int, a[k as int].with_name(name)), k, parent),
{
    let b = a.update(k as int, a[k as int].with_name(name));
    assert(node_ok(a, k));
    assert(cursor_after(b, k, 0) == k + 1);
    assert(node_ok(b, k));
}

/// A sound sub without modifier stays sound when a valid token is appended
/// to its body.
proof fn lemma_token_pushed(a: Seq<NodeModel>, k: nat, parent: Option<nat>, v: ValueModel)
    requires
        sound(a, k, parent),
        a[k as int].modifier is None,
        valid_token(v),
    ensures
        sound(a.update(k as int, a[k as int].with_child(v)), k, parent),
{
    let b = a.update(k as int, a[k as int].with_child(v));
    let n = a[k as int].children.len();
    assert(node_ok(a, k));
    lemma_cursor_extends(a, b, k, n);
    assert(cursor_after(b, k, n + 1) == cursor_after(b, k, n));
    assert forall|j: int| 0 <= j < b[k as int].children.len() implies entry_ok(b, k, j) by {
        if j < n {
            assert(entry_ok(a, k, j));
            lemma_cursor_extends(a, b, k, j as nat);
        }
    }
    assert(node_ok(b, k));
    assert forall|i: nat| k <= i < b.len() implies node_ok(b, i) by {
        if i > k {
            lemma_node_ok_extends(a, b, i);
        }
    }
}

/// A sound sub without modifier stays sound when a valid token becomes its
/// modifier.
proof fn lemma_token_modifies(a: Seq<NodeModel>, k: nat, parent: Option<nat>, v: ValueModel)
    requires
        sound(a, k, parent),
        a[k as int].modifier is None,
        valid_token(v),
    ensures
        sound(a.update(k as int, a[k as int].with_modifier(v)), k, parent),
{
    let b = a.update(k as int, a[k as int].with_modifier(v));
    let n = a[k as int].children.len();
    assert(node_ok(a, k));
    lemma_cursor_extends(a, b, k, n);
    assert forall|j: int| 0 <= j < b[k as int].children.len() implies entry_ok(b, k, j) by {
        assert(entry_ok(a, k, j));
        lemma_cursor_extends(a, b, k, j as nat);
    }
    assert(node_ok(b, k));
    assert forall|i: nat| k <= i < b.len() implies node_ok(b, i) by {
        if i > k {
            lemma_node_ok_extends(a, b, i);
        }
    }
}

/// The nodes from `k` on are well formed in `c`, where `b` holds a sound sub
/// behind the nodes of `a` and `c` is `b` with node `k` changed.
proof fn lemma_others_stay_ok(
    a: Seq<NodeModel>,
    b: Seq<NodeModel>,
    c: Seq<NodeModel>,
    k: nat,
    inner: Option<nat>,
)
    requires
        k < a.len(),
        all_ok_from(a, k),
        extends_from(a, b, 0),
        sound(b, a.len(), inner),
        c.len() == b.len(),
        forall|i: int| 0 <= i < b.len() && i != k ==> c[i] == b[i],
    ensures
        forall|i: nat| k < i < c.len() ==> node_ok(c, i),
{
    assert forall|i: nat| k < i < c.len() implies node_ok(c, i) by {
        if i < a.len() {
            lemma_node_ok_extends(a, c, i);
        } else {
            lemma_node_ok_extends(b, c, i);
        }
    }
}

/// A sound sub without modifier stays sound when a sound sub that was parsed
/// behind it is appended to its body.
proof fn lemma_sub_pushed(
    a: Seq<NodeModel>,
    b: Seq<NodeModel>,
    k: nat,
    parent: Option<nat>,
)
    requires
        sound(a, k, parent),
        a[k as int].modifier is None,
        extends_from(a, b, 0),
        sound(b, a.len(), Some(k)),
    ensures
        sound(b.update(k as int, b[k as int].with_child(ValueModel::NodeRef(a.len()))), k, parent),
{
    let m = a.len();
    let c = b.update(k as int, b[k as int].with_child(ValueModel::NodeRef(m)));
    let n = a[k as int].children.len();
    assert(node_ok(a, k));
    assert(b[k as int] == a[k as int]);
    lemma_others_stay_ok(a, b, c, k, Some(k));
    lemma_cursor_extends(a, c, k, n);
    lemma_extent_extends(b, c, m);
    assert(cursor_after(c, k, n + 1) == extent(c, m));
    assert forall|j: int| 0 <= j < c[k as int].children.len() implies entry_ok(c, k, j) by {
        if j < n {
            assert(entry_ok(a, k, j));
            lemma_cursor_extends(a, c, k, j as nat);
        }
    }
    assert(node_ok(c, k));
}

/// A sound sub without modifier stays sound when a sound sub that was parsed
/// behind it becomes its modifier.
proof fn lemma_sub_modifies(
    a: Seq<NodeModel>,
    b: Seq<NodeModel>,
    k: nat,
    parent: Option<nat>,
)
    requires
        sound(a, k, parent),
        a[k as int].modifier is None,
        extends_from(a, b, 0),
        sound(b, a.len(), Some(k)),
    ensures
        sound(
            b.update(k as int, b[k as int].with_modifier(ValueModel::NodeRef(a.len()))),
            k,
            parent,
        ),
{
    let m = a.len();
    let c = b.update(k as int, b[k as int].with_modifier(ValueModel::NodeRef(m)));
    let n = a[k as int].children.len();
    assert(node_ok(a, k));
    assert(b[k as int] == a[k as int]);
    lemma_others_stay_ok(a, b, c, k, Some(k));
    lemma_cursor_extends(a, c, k, n);
    lemma_extent_extends(b, c, m);
    assert forall|j: int| 0 <= j < c[k as int].children.len() implies entry_ok(c, k, j) by {
        assert(entry_ok(a, k, j));
        lemma_cursor_extends(a, c, k, j as nat);
    }
    assert(node_ok(c, k));
}

/// Every run of the machine keeps the arena well formed.
pub proof fn lemma_run_is_sound(code: Seq<Seq<char>>, c: Config, parent: Option<nat>)
    requires
        ready(c, parent),
    ensures
        ends_sound(c, parent, run(code, c)),
    decreases code.len() - c.index, rank(c.state), 0nat,
{
    if c.state != State::Done && c.index < code.len() {
        let g = code[c.index as int];
        let (next, action) = transition(c.state, glyph(g));
        let moved = c.consume(g).enter(next);
        match action {
            Action::Advance => {
                lemma_run_is_sound(code, moved, parent);
            },
            Action::Begin => {
                lemma_run_is_sound(code, moved.with_token(g), parent);
            },
            Action::Extend => {
                lemma_join_other(c.token, g);
                lemma_run_is_sound(code, moved.with_token(c.token + g), parent);
            },
            Action::CommitName => {
                lemma_named(c.arena, c.node, parent, c.token);
                lemma_run_is_sound(
                    code,
                    moved.with_node(c.current().with_name(c.token)).with_token(Seq::empty()),
                    parent,
                );
            },
            Action::EmitValue => {
                lemma_classified_is_valid(c.token);
                lemma_token_pushed(c.arena, c.node, parent, classify_spec(c.token));
                lemma_run_is_sound(
                    code,
                    c.enter(next).with_node(
                        c.current().with_child(classify_spec(c.token)),
                    ).with_token(Seq::empty()),
                    parent,
                );
            },
            Action::EmitModifier => {
                lemma_classified_is_valid(c.token);
                lemma_token_modifies(c.arena, c.node, parent, classify_spec(c.token));
                lemma_run_is_sound(
                    code,
                    c.enter(next).with_node(
                        c.current().with_modifier(classify_spec(c.token)),
                    ).with_token(Seq::empty()),
                    parent,
                );
            },
            Action::Descend => {
                lemma_parse_sub_keeps(code, c.arena, c.index, c.line, c.column, Some(c.node));
                lemma_parse_sub_is_sound(code, c.arena, c.index, c.line, c.column, Some(c.node));
                match parse_sub(code, c.arena, c.index, c.line, c.column, Some(c.node)) {
                    Outcome::Parsed { arena, node, index, line, column } => {
                        if c.index < index <= code.len() {
                            let nested = c.resume(arena, index, line, column);
                            lemma_sub_pushed(c.arena, arena, c.node, parent);
                            lemma_run_is_sound(
                                code,
                                nested.enter(next).with_node(
                                    nested.current().with_child(ValueModel::NodeRef(node)),
                                ),
                                parent,
                            );
                        }
                    },
                    Outcome::Failed { .. } => {},
                }
            },
            Action::DescendModifier => {
                lemma_parse_sub_keeps(code, c.arena, c.index, c.line, c.column, Some(c.node));
                lemma_parse_sub_is_sound(code, c.arena, c.index, c.line, c.column, Some(c.node));
                match parse_sub(code, c.arena, c.index, c.line, c.column, Some(c.node)) {
                    Outcome::Parsed { arena, node, index, line, column } => {
                        if c.index < index <= code.len() {
                            let nested = c.resume(arena, index, line, column);
                            lemma_sub_modifies(c.arena, arena, c.node, parent);
                            lemma_run_is_sound(
                                code,
                                nested.enter(next).with_node(
                                    nested.current().with_modifier(ValueModel::NodeRef(node)),
                                ),
                                parent,
                            );
                        }
                    },
                    Outcome::Failed { .. } => {},
                }
            },
            Action::Reject(_) => {},
        }
    }
}

/// The parse of a sub appends a sound sub to the arena.
pub proof fn lemma_parse_sub_is_sound(
    code: Seq<Seq<char>>,
    arena: Seq<NodeModel>,
    index: nat,
    line: nat,
    column: nat,
    parent: Option<nat>,
)
    ensures
        parse_sub(code, arena, index, line, column, parent) matches Outcome::Parsed {
            arena: grown,
            ..
        } ==> sound(grown, arena.len(), parent),
    decreases code.len() - index, 1nat, 0nat,
{
    let c = Config {
        arena: arena.push(NodeModel::fresh(parent)),
        node: arena.len(),
        state: State::Start,
        token: Seq::empty(),
        index,
        line,
        column,
    };
    assert(cursor_after(c.arena, c.node, 0) == c.node + 1);
    assert(node_ok(c.arena, c.node));
    lemma_run_is_sound(code, c, parent);
}

/// What is parsed is a well-formed program: every nested sub stands in the
/// arena behind its parent and behind the subs before it, with the parent
/// that encloses it, and every token is one that the classifier gives.
pub proof fn lemma_parsed_is_well_formed(body: Seq<Seq<char>>)
    ensures
        parse_program(body) matches Ok(arena) ==> well_formed(arena),
{
    let code = wrap(body);
    lemma_wrapper_opens(body);
    let c = within_wrapper();
    assert(cursor_after(c.arena, 0, 0) == 1);
    assert(node_ok(c.arena, 0));
    lemma_run_is_sound(code, c, None);
}

} // verus!
