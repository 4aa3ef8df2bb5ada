//! Lines and columns: where a grapheme stands in its source, and the proof
//! that the parser's counters say so.

use vstd::prelude::*;
use crate::grammar::{parse_sub, rank, run, Config, Outcome};
use crate::grapheme::{ends_line, glyph, is_line_break, Glyph};
use crate::machine::{transition, Action, Complaint, State};
use crate::result::{complaint_kind, ErrorKind};
use crate::value::{NodeModel, ValueModel};

verus! {

/// The line and column of grapheme `index`, counted on from grapheme `start`,
/// which stands at the given line and column. A line feed ends its line; the
/// grapheme behind it stands in column 0 of the next.
pub open spec fn track(code: Seq<Seq<char>>, start: nat, line: nat, column: nat, index: nat) -> (
    nat,
    nat,
)
    decreases index,
{
    if index <= start {
        (line, column)
    } else {
        let before = track(code, start, line, column, (index - 1) as nat);
        if is_line_break(code[index - 1]) {
            (before.0 + 1, 0)
        } else {
            (before.0, before.1 + 1)
        }
    }
}

/// The line and column of grapheme `index` of `code`, both counted from 0.
/// `index` may be the length of `code`: the place just behind its end.
pub open spec fn place(code: Seq<Seq<char>>, index: nat) -> (nat, nat) {
    track(code, 0, 0, 0, index)
}

/// Finds the line and column of a grapheme by counting the line feeds before
/// it.
pub fn locate(code: &Vec<String>, index: usize) -> (r: (usize, usize))
    requires
        index <= code.len(),
    ensures
        (r.0 as nat, r.1 as nat) == place(code.deep_view(), index as nat),
{
    let mut line: usize = 0;
    let mut column: usize = 0;
    let mut i: usize = 0;
    while i < index
        invariant
            i <= index <= code.len(),
            line <= i,
            column <= i,
            (line as nat, column as nat) == place(code.deep_view(), i as nat),
        decreases index - i,
    {
        assert(code.deep_view()[i as int] == code[i as int]@);
        if ends_line(code[i].as_str()) {
            line = line + 1;
            column = 0;
        } else {
            column = column + 1;
        }
        i = i + 1;
    }
    (line, column)
}

/// Whether the counters of `c` are those of its cursor.
pub open spec fn on_track(code: Seq<Seq<char>>, start: nat, line: nat, column: nat, c: Config) -> bool {
    start <= c.index && (c.line, c.column) == track(code, start, line, column, c.index)
}

/// Whether a parse that began at grapheme `from` ended at or behind it, within
/// the code, with the counters of the place where it ended.
pub open spec fn ends_on_track(
    code: Seq<Seq<char>>,
    start: nat,
    line: nat,
    column: nat,
    from: nat,
    outcome: Outcome,
) -> bool {
    match outcome {
        Outcome::Parsed { arena, node, index, line: l, column: k } => {
            &&& from <= index <= code.len()
            &&& (l, k) == track(code, start, line, column, index)
        },
        Outcome::Failed { complaint, index, line: l, column: k } => {
            &&& from <= index
            &&& index <= code.len() || index == from
            &&& (l, k) == track(code, start, line, column, index)
        },
    }
}

/// Whether a parse that ended well has consumed something.
pub open spec fn has_advanced(from: nat, outcome: Outcome) -> bool {
    outcome matches Outcome::Parsed { index, .. } ==> from < index
}

/// Whether a parse that failed for want of input failed at or behind the end
/// of the code.
pub open spec fn ends_at_end(code: Seq<Seq<char>>, outcome: Outcome) -> bool {
    outcome matches Outcome::Failed { complaint, index, .. } ==> (complaint
        == Complaint::UnexpectedEnd ==> index >= code.len())
}

/// Whether a parse that failed blames the source.
pub open spec fn blames_source(outcome: Outcome) -> bool {
    outcome matches Outcome::Failed { complaint, .. } ==> complaint_kind(complaint)
        == ErrorKind::Syntax
}

/// The machine's counters follow its cursor: wherever a run ends, its line
/// and column are those of the grapheme at which it ends. A run that ends
/// well has moved the cursor forward, one that has left the start state
/// fails only for what the source holds, and one that fails for want of
/// input fails at the end of the code.
pub proof fn lemma_run_on_track(
    code: Seq<Seq<char>>,
    c: Config,
    start: nat,
    line: nat,
    column: nat,
)
    requires
        on_track(code, start, line, column, c),
        c.state == State::Done ==> c.index <= code.len(),
    ensures
        ends_on_track(code, start, line, column, c.index, run(code, c)),
        c.state != State::Done ==> has_advanced(c.index, run(code, c)),
        c.state != State::Start ==> blames_source(run(code, c)),
        ends_at_end(code, run(code, c)),
    decreases code.len() - c.index, rank(c.state), 0nat,
{
    if c.state != State::Done && c.index < code.len() {
        let g = code[c.index as int];
        let (next, action) = transition(c.state, glyph(g));
        let moved = c.consume(g).enter(next);
        match action {
            Action::Advance => {
                lemma_run_on_track(code, moved, start, line, column);
            },
            Action::Begin => {
                lemma_run_on_track(code, moved.with_token(g), start, line, column);
            },
            Action::Extend => {
                lemma_run_on_track(code, moved.with_token(c.token + g), start, line, column);
            },
            Action::CommitName => {
                lemma_run_on_track(
                    code,
                    moved.with_node(c.current().with_name(c.token)).with_token(Seq::empty()),
                    start,
                    line,
                    column,
                );
            },
            Action::EmitValue => {
                lemma_run_on_track(
                    code,
                    c.enter(next).with_node(
                        c.current().with_child(crate::literal::classify_spec(c.token)),
                    ).with_token(Seq::empty()),
                    start,
                    line,
                    column,
                );
            },
            Action::EmitModifier => {
                lemma_run_on_track(
                    code,
                    c.enter(next).with_node(
                        c.current().with_modifier(crate::literal::classify_spec(c.token)),
                    ).with_token(Seq::empty()),
                    start,
                    line,
                    column,
                );
            },
            Action::Descend => {
                lemma_parse_sub_on_track(
                    code,
                    c.arena,
                    c.index,
                    c.line,
                    c.column,
                    Some(c.node),
                    start,
                    line,
                    column,
                );
                match parse_sub(code, c.arena, c.index, c.line, c.column, Some(c.node)) {
                    Outcome::Parsed { arena, node, index, line: l, column: k } => {
                        let nested = c.resume(arena, index, l, k);
                        lemma_run_on_track(
                            code,
                            nested.enter(next).with_node(
                                nested.current().with_child(ValueModel::NodeRef(node)),
                            ),
                            start,
                            line,
                            column,
                        );
                    },
                    Outcome::Failed { .. } => {},
                }
            },
            Action::DescendModifier => {
                lemma_parse_sub_on_track(
                    code,
                    c.arena,
                    c.index,
                    c.line,
                    c.column,
                    Some(c.node),
                    start,
                    line,
                    column,
                );
                match parse_sub(code, c.arena, c.index, c.line, c.column, Some(c.node)) {
                    Outcome::Parsed { arena, node, index, line: l, column: k } => {
                        let nested = c.resume(arena, index, l, k);
                        lemma_run_on_track(
                            code,
                            nested.enter(next).with_node(
                                nested.current().with_modifier(ValueModel::NodeRef(node)),
                            ),
                            start,
                            line,
                            column,
                        );
                    },
                    Outcome::Failed { .. } => {},
                }
            },
            Action::Reject(_) => {},
        }
    }
}

/// The same for the parse of a whole sub that opens at a bracket.
pub proof fn lemma_parse_sub_on_track(
    code: Seq<Seq<char>>,
    arena: Seq<NodeModel>,
    index: nat,
    at_line: nat,
    at_column: nat,
    parent: Option<nat>,
    start: nat,
    line: nat,
    column: nat,
)
    requires
        start <= index,
        (at_line, at_column) == track(code, start, line, column, index),
    ensures
        ends_on_track(
            code,
            start,
            line,
            column,
            index,
            parse_sub(code, arena, index, at_line, at_column, parent),
        ),
        has_advanced(index, parse_sub(code, arena, index, at_line, at_column, parent)),
        ends_at_end(code, parse_sub(code, arena, index, at_line, at_column, parent)),
        index < code.len() && glyph(code[index as int]) == Glyph::Open ==> blames_source(
            parse_sub(code, arena, index, at_line, at_column, parent),
        ),
    decreases code.len() - index, 1nat, 0nat,
{
    let c = Config {
        arena: arena.push(NodeModel::fresh(parent)),
        node: arena.len(),
        state: State::Start,
        token: Seq::empty(),
        index,
        line: at_line,
        column: at_column,
    };
    lemma_run_on_track(code, c, start, line, column);
    if index < code.len() && glyph(code[index as int]) == Glyph::Open {
        let g = code[index as int];
        lemma_run_on_track(code, c.consume(g).enter(State::SubOpen), start, line, column);
    }
}

} // verus!
