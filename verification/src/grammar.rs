//! The language, as the run of the state machine over a sequence of
//! graphemes. The functions here are the mathematical definition that the
//! parser is verified against.

use vstd::prelude::*;
use crate::grapheme::{glyph, is_line_break};
use crate::literal::classify_spec;
use crate::machine::{transition, Action, Complaint, State};
use crate::value::{NodeModel, ValueModel};

verus! {

/// The parser's whole state while it parses one sub.
pub struct Config {
    /// All nodes opened so far.
    pub arena: Seq<NodeModel>,
    /// The index of the sub that is being parsed.
    pub node: nat,
    pub state: State,
    /// The graphemes of the token that is being read, joined.
    pub token: Seq<char>,
    /// The cursor: an index into the graphemes, and its line and column.
    pub index: nat,
    pub line: nat,
    pub column: nat,
}

/// How the parse of one sub ends.
pub enum Outcome {
    /// The sub `node` is complete and the cursor stands behind its closing
    /// bracket.
    Parsed { arena: Seq<NodeModel>, node: nat, index: nat, line: nat, column: nat },
    /// The parse stopped at the given place.
    Failed { complaint: Complaint, index: nat, line: nat, column: nat },
}

impl Config {
    /// The configuration after the grapheme `g` under the cursor is consumed:
    /// the column advances, and a line feed starts a new line.
    pub open spec fn consume(self, g: Seq<char>) -> Config {
        Config {
            index: self.index + 1,
            line: if is_line_break(g) {
                self.line + 1
            } else {
                self.line
            },
            column: if is_line_break(g) {
                0
            } else {
                self.column + 1
            },
            ..self
        }
    }

    /// The configuration in another state.
    pub open spec fn enter(self, state: State) -> Config {
        Config { state, ..self }
    }

    /// The configuration with another token.
    pub open spec fn with_token(self, token: Seq<char>) -> Config {
        Config { token, ..self }
    }

    /// The sub's node replaced by `node`.
    pub open spec fn with_node(self, node: NodeModel) -> Config {
        Config { arena: self.arena.update(self.node as int, node), ..self }
    }

    /// The node of the sub that is being parsed.
    pub open spec fn current(self) -> NodeModel {
        self.arena[self.node as int]
    }

    /// The configuration in which the parse of a nested sub has left the
    /// arena and the cursor.
    pub open spec fn resume(self, arena: Seq<NodeModel>, index: nat, line: nat, column: nat) -> Config {
        Config { arena, index, line, column, ..self }
    }

    /// The failure at the cursor.
    pub open spec fn fail(self, complaint: Complaint) -> Outcome {
        Outcome::Failed { complaint, index: self.index, line: self.line, column: self.column }
    }
}

/// The order of the states at one grapheme: a state in which the machine may
/// act without consuming the grapheme ranks above the state that it leads to.
pub open spec fn rank(state: State) -> nat {
    match state {
        State::InValue => 3,
        State::InModifierName => 3,
        State::InBody => 2,
        State::InModifier => 2,
        _ => 0,
    }
}

/// The run of the machine from configuration `c` to the end of its sub. A
/// sub nested in the body, and one that is the modifier, have the sub that is
/// being parsed as their parent.
///
/// Behind a nested sub the run goes on only if the nested parse has moved
/// the cursor forward, within the code. It always has: the test is here for
/// the proof that the run ends.
pub open spec fn run(code: Seq<Seq<char>>, c: Config) -> Outcome
    decreases code.len() - c.index, rank(c.state),
{
    if c.state == State::Done {
        Outcome::Parsed { arena: c.arena, node: c.node, index: c.index, line: c.line, column: c.column }
    } else if c.index >= code.len() {
        c.fail(Complaint::UnexpectedEnd)
    } else {
        let g = code[c.index as int];
        let (next, action) = transition(c.state, glyph(g));
        match action {
            Action::Advance => run(code, c.consume(g).enter(next)),
            Action::Begin => run(code, c.consume(g).enter(next).with_token(g)),
            Action::Extend => run(code, c.consume(g).enter(next).with_token(c.token + g)),
            Action::CommitName => run(
                code,
                c.consume(g).enter(next).with_node(c.current().with_name(c.token)).with_token(
                    Seq::empty(),
                ),
            ),
            Action::EmitValue => run(
                code,
                c.enter(next).with_node(c.current().with_child(classify_spec(c.token))).with_token(
                    Seq::empty(),
                ),
            ),
            Action::EmitModifier => run(
                code,
                c.enter(next).with_node(
                    c.current().with_modifier(classify_spec(c.token)),
                ).with_token(Seq::empty()),
            ),
            Action::Descend => {
                match parse_sub(code, c.arena, c.index, c.line, c.column, Some(c.node)) {
                    Outcome::Parsed { arena, node, index, line, column } => {
                        if c.index < index <= code.len() {
                            let nested = c.resume(arena, index, line, column);
                            run(
                                code,
                                nested.enter(next).with_node(
                                    nested.current().with_child(ValueModel::NodeRef(node)),
                                ),
                            )
                        } else {
                            c.fail(Complaint::AlreadyDone)
                        }
                    },
                    failed => failed,
                }
            },
            Action::DescendModifier => {
                match parse_sub(code, c.arena, c.index, c.line, c.column, Some(c.node)) {
                    Outcome::Parsed { arena, node, index, line, column } => {
                        if c.index < index <= code.len() {
                            let nested = c.resume(arena, index, line, column);
                            run(
                                code,
                                nested.enter(next).with_node(
                                    nested.current().with_modifier(ValueModel::NodeRef(node)),
                                ),
                            )
                        } else {
                            c.fail(Complaint::AlreadyDone)
                        }
                    },
                    failed => failed,
                }
            },
            Action::Reject(complaint) => c.fail(complaint),
        }
    }
}

/// The parse of the sub that opens at `index`: a fresh node is appended to
/// the arena, and the machine runs from its start state.
pub open spec fn parse_sub(
    code: Seq<Seq<char>>,
    arena: Seq<NodeModel>,
    index: nat,
    line: nat,
    column: nat,
    parent: Option<nat>,
) -> Outcome
    decreases code.len() - index, 1nat,
{
    run(
        code,
        Config {
            arena: arena.push(NodeModel::fresh(parent)),
            node: arena.len(),
            state: State::Start,
            token: Seq::empty(),
            index,
            line,
            column,
        },
    )
}

} // verus!
