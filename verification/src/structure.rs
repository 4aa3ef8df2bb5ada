//! What a parse does to the arena: it appends, and leaves alone what stood
//! there before.

use vstd::prelude::*;
use crate::grammar::{parse_sub, rank, run, Config, Outcome};
use crate::grapheme::{glyph, Glyph};
use crate::literal::classify_spec;
use crate::machine::{transition, Action, State};
use crate::position::track;
use crate::value::{NodeModel, ValueModel};

verus! {

/// Whether `after` is no shorter than `before` and holds every node of
/// `before` unchanged, but for the node with index `node`.
pub open spec fn keeps(before: Seq<NodeModel>, after: Seq<NodeModel>, node: nat) -> bool {
    &&& before.len() <= after.len()
    &&& forall|i: int| 0 <= i < before.len() && i != node ==> after[i] == before[i]
}

/// Whether a run that ended well ended in the sub `node`, with all other
/// nodes as they were.
pub open spec fn ends_in(before: Seq<NodeModel>, node: nat, outcome: Outcome) -> bool {
    outcome matches Outcome::Parsed { arena, node: n, .. } ==> n == node && keeps(
        before,
        arena,
        node,
    )
}

/// A run changes no node but that of the sub that it parses, and ends in
/// that sub.
pub proof fn lemma_run_keeps(code: Seq<Seq<char>>, c: Config)
    requires
        c.node < c.arena.len(),
    ensures
        ends_in(c.arena, c.node, run(code, c)),
    decreases code.len() - c.index, rank(c.state), 0nat,
{
    if c.state != State::Done && c.index < code.len() {
        let g = code[c.index as int];
        let (next, action) = transition(c.state, glyph(g));
        let moved = c.consume(g).enter(next);
        match action {
            Action::Advance => {
                lemma_run_keeps(code, moved);
            },
            Action::Begin => {
                lemma_run_keeps(code, moved.with_token(g));
            },
            Action::Extend => {
                lemma_run_keeps(code, moved.with_token(c.token + g));
            },
            Action::CommitName => {
                lemma_run_keeps(
                    code,
                    moved.with_node(c.current().with_name(c.token)).with_token(Seq::empty()),
                );
            },
            Action::EmitValue => {
                lemma_run_keeps(
                    code,
                    c.enter(next).with_node(
                        c.current().with_child(classify_spec(c.token)),
                    ).with_token(Seq::empty()),
                );
            },
            Action::EmitModifier => {
                lemma_run_keeps(
                    code,
                    c.enter(next).with_node(
                        c.current().with_modifier(classify_spec(c.token)),
                    ).with_token(Seq::empty()),
                );
            },
            Action::Descend => {
                lemma_parse_sub_keeps(code, c.arena, c.index, c.line, c.column, Some(c.node));
                match parse_sub(code, c.arena, c.index, c.line, c.column, Some(c.node)) {
                    Outcome::Parsed { arena, node, index, line, column } => {
                        let nested = c.resume(arena, index, line, column);
                        if c.index < index <= code.len() {
                            lemma_run_keeps(
                                code,
                                nested.enter(next).with_node(
                                    nested.current().with_child(ValueModel::NodeRef(node)),
                                ),
                            );
                        }
                    },
                    Outcome::Failed { .. } => {},
                }
            },
            Action::DescendModifier => {
                lemma_parse_sub_keeps(code, c.arena, c.index, c.line, c.column, Some(c.node));
                match parse_sub(code, c.arena, c.index, c.line, c.column, Some(c.node)) {
                    Outcome::Parsed { arena, node, index, line, column } => {
                        let nested = c.resume(arena, index, line, column);
                        if c.index < index <= code.len() {
                            lemma_run_keeps(
                                code,
                                nested.enter(next).with_node(
                                    nested.current().with_modifier(ValueModel::NodeRef(node)),
                                ),
                            );
                        }
                    },
                    Outcome::Failed { .. } => {},
                }
            },
            Action::Reject(_) => {},
        }
    }
}

/// The parse of a sub appends its nodes to the arena: the sub's own node
/// comes first, and what stood in the arena stays.
pub proof fn lemma_parse_sub_keeps(
    code: Seq<Seq<char>>,
    arena: Seq<NodeModel>,
    index: nat,
    line: nat,
    column: nat,
    parent: Option<nat>,
)
    ensures
        ends_in(arena, arena.len(), parse_sub(code, arena, index, line, column, parent)),
        parse_sub(code, arena, index, line, column, parent) matches Outcome::Parsed {
            arena: grown,
            ..
        } ==> arena.len() < grown.len(),
    decreases code.len() - index, 1nat, 0nat,
{
    let c = Config {
        arena: arena.push(NodeModel::fresh(parent)),
        node: arena.len(),
        state: State::Start,
        token: Seq::empty(),
        index,
        line,
        column,
    };
    lemma_run_keeps(code, c);
}

/// Whether every grapheme from `from` up to `to` is a blank.
pub open spec fn blank_between(code: Seq<Seq<char>>, from: nat, to: nat) -> bool {
    &&& from <= to <= code.len()
    &&& forall|i: int| from <= i < to ==> glyph(#[trigger] code[i]) == Glyph::Space
}

/// Whether the machine passes over blanks in this state.
pub open spec fn idles(state: State) -> bool {
    transition(state, Glyph::Space) == (state, Action::Advance)
}

/// The configuration `c` with its cursor moved on to `to`.
pub open spec fn moved_to(code: Seq<Seq<char>>, c: Config, to: nat) -> Config {
    Config {
        index: to,
        line: track(code, c.index, c.line, c.column, to).0,
        column: track(code, c.index, c.line, c.column, to).1,
        ..c
    }
}

/// Between two entries the machine passes over any number of blanks.
pub proof fn lemma_skip_blanks(code: Seq<Seq<char>>, c: Config, to: nat)
    requires
        blank_between(code, c.index, to),
        idles(c.state),
    ensures
        run(code, c) == run(code, moved_to(code, c, to)),
    decreases to,
{
    if to == c.index {
        assert(moved_to(code, c, to) == c);
    } else {
        let before = (to - 1) as nat;
        lemma_skip_blanks(code, c, before);
        let b = moved_to(code, c, before);
        let g = code[before as int];
        assert(glyph(g) == Glyph::Space);
        assert(b.consume(g).enter(b.state) == moved_to(code, c, to));
    }
}

} // verus!
