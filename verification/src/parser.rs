//! The parser: the state machine, run over a sequence of graphemes, filling
//! an arena of nodes.

use vstd::prelude::*;
use crate::grammar::{parse_sub, run, Config, Outcome};
use crate::grapheme::{ends_line, glyph_of, is_line_break};
use crate::literal::classify;
use crate::laws::{lemma_complaints_differ, lemma_unterminated_fails_at_end};
use crate::machine::{step, Action, Complaint, State};
use crate::result::{complaint_kind, complaint_text, ErrorModel, ParserError, ParserSuccess};
use crate::shape::extends_from;
use crate::value::{index_model, Node, NodeModel, Value};

verus! {

pub type ParserResult = Result<ParserSuccess, ParserError>;

/// Whether what a parse returned, and the arena that it left, are what
/// `outcome` says.
pub open spec fn agrees(r: ParserResult, arena: Seq<NodeModel>, outcome: Outcome) -> bool {
    match outcome {
        Outcome::Parsed { arena: parsed, node, index, line, column } => {
            &&& r matches Ok(s)
            &&& s.sub == node
            &&& s.index == index
            &&& s.line == line
            &&& s.lineindex == column
            &&& arena == parsed
        },
        Outcome::Failed { complaint, index, line, column } => {
            &&& r matches Err(e)
            &&& e@ == (ErrorModel {
                kind: complaint_kind(complaint),
                description: complaint_text(complaint),
                index,
                line,
                column,
            })
        },
    }
}

/// The line and column behind a grapheme that stands at the given line and
/// column: the next column, or the start of the next line behind a line feed.
fn behind(g: &str, row: usize, column: usize) -> (r: (usize, usize))
    requires
        row < usize::MAX,
        column < usize::MAX,
    ensures
        r.0 == (if is_line_break(g@) {
            row + 1
        } else {
            row as int
        }),
        r.1 == (if is_line_break(g@) {
            0
        } else {
            column + 1
        }),
{
    if ends_line(g) {
        (row + 1, 0)
    } else {
        (row, column + 1)
    }
}

/// A sequence of graphemes and the arena of the nodes parsed from it so far.
#[derive(Debug)]
pub struct Parser {
    subs: Vec<Node>,
    code: Vec<String>,
}

impl Default for Parser {
    /// A parser over no code, with an empty arena.
    fn default() -> (parser: Parser)
        ensures
            parser.source() == Seq::<Seq<char>>::empty(),
            parser.arena() == Seq::<NodeModel>::empty(),
    {
        Parser::new(Vec::new())
    }
}

impl Parser {
    /// The nodes parsed so far.
    pub closed spec fn arena(&self) -> Seq<NodeModel> {
        self.subs.deep_view()
    }

    /// The graphemes that are parsed.
    pub closed spec fn source(&self) -> Seq<Seq<char>> {
        self.code.deep_view()
    }

    /// A parser over `code` with an empty arena.
    pub fn new(code: Vec<String>) -> (parser: Parser)
        ensures
            parser.source() == code.deep_view(),
            parser.arena() == Seq::<NodeModel>::empty(),
    {
        let parser = Parser { subs: Vec::new(), code };
        assert(parser.subs.deep_view() =~= Seq::empty());
        parser
    }

    /// The graphemes that are parsed.
    pub fn code(&self) -> (code: &Vec<String>)
        ensures
            code.deep_view() == self.source(),
    {
        &self.code
    }

    /// Gives up the parser for the nodes that it has parsed.
    pub fn into_nodes(self) -> (nodes: Vec<Node>)
        ensures
            nodes.deep_view() == self.arena(),
    {
        self.subs
    }

    /// Appends a fresh node to the arena and returns its index.
    fn open_node(&mut self, parent: Option<usize>) -> (node: usize)
        ensures
            final(self).source() == old(self).source(),
            final(self).arena() == old(self).arena().push(NodeModel::fresh(index_model(parent))),
            node == old(self).arena().len(),
    {
        self.subs.push(Node::new(parent));
        assert(self.subs.deep_view() =~= old(self).subs.deep_view().push(
            NodeModel::fresh(index_model(parent)),
        ));
        self.subs.len() - 1
    }

    /// Names a node.
    fn set_name(&mut self, node: usize, name: String)
        requires
            node < old(self).arena().len(),
        ensures
            final(self).source() == old(self).source(),
            final(self).arena() == old(self).arena().update(
                node as int,
                old(self).arena()[node as int].with_name(name@),
            ),
    {
        self.subs[node].name = name;
        assert(self.subs.deep_view() =~= old(self).subs.deep_view().update(
            node as int,
            old(self).subs.deep_view()[node as int].with_name(name@),
        ));
    }

    /// Appends a child to a node.
    fn push_child(&mut self, node: usize, child: Value)
        requires
            node < old(self).arena().len(),
        ensures
            final(self).source() == old(self).source(),
            final(self).arena() == old(self).arena().update(
                node as int,
                old(self).arena()[node as int].with_child(child.deep_view()),
            ),
    {
        self.subs[node].children.push(child);
        assert(self.subs[node as int].children.deep_view() =~= old(
            self,
        ).subs[node as int].children.deep_view().push(child.deep_view()));
        assert(self.subs.deep_view() =~= old(self).subs.deep_view().update(
            node as int,
            old(self).subs.deep_view()[node as int].with_child(child.deep_view()),
        ));
    }

    /// Gives a node its modifier.
    fn set_modifier(&mut self, node: usize, modifier: Value)
        requires
            node < old(self).arena().len(),
        ensures
            final(self).source() == old(self).source(),
            final(self).arena() == old(self).arena().update(
                node as int,
                old(self).arena()[node as int].with_modifier(modifier.deep_view()),
            ),
    {
        self.subs[node].modifier = Some(modifier);
        assert(self.subs.deep_view() =~= old(self).subs.deep_view().update(
            node as int,
            old(self).subs.deep_view()[node as int].with_modifier(modifier.deep_view()),
        ));
    }

    /// Parses the sub that opens at grapheme `index`, which stands at the
    /// given line and column, as a child of `parent`. The sub's node and the
    /// nodes of the subs nested in it are appended to the arena.
    ///
    /// Returns the sub's index in the arena and the cursor behind its closing
    /// bracket, or the error that stopped the parse. Either way the nodes that
    /// stood in the arena stay as they were. Where the code ends before the
    /// sub does, the error stands just behind the last grapheme.
    pub fn parse(&mut self, index: usize, line: usize, lineindex: usize, parent: Option<usize>) -> (r: ParserResult)
        requires
            line + old(self).source().len() - index <= usize::MAX,
            lineindex + old(self).source().len() - index <= usize::MAX,
        ensures
            final(self).source() == old(self).source(),
            final(self).arena().len() > old(self).arena().len(),
            extends_from(old(self).arena(), final(self).arena(), 0),
            agrees(
                r,
                final(self).arena(),
                parse_sub(
                    old(self).source(),
                    old(self).arena(),
                    index as nat,
                    line as nat,
                    lineindex as nat,
                    index_model(parent),
                ),
            ),
            r matches Ok(s) ==> {
                &&& index < s.index <= old(self).source().len()
                &&& s.line - line <= s.index - index
                &&& s.lineindex - lineindex <= s.index - index
            },
            r matches Err(e) ==> index <= old(self).source().len() ==> e.description@
                == complaint_text(Complaint::UnexpectedEnd) ==> e.index == old(
                self,
            ).source().len(),
        decreases old(self).source().len() - index,
    {
        let ghost code = self.source();
        let ghost base = self.arena();
        let ghost above = index_model(parent);
        let ghost goal = parse_sub(code, base, index as nat, line as nat, lineindex as nat, above);
        proof {
            if index <= code.len() {
                lemma_unterminated_fails_at_end(
                    code,
                    base,
                    index as nat,
                    line as nat,
                    lineindex as nat,
                    above,
                );
            }
        }
        let n: usize = self.code.len();
        let current: usize = self.open_node(parent);
        let mut state = State::Start;
        let mut token = String::new();
        let mut at: usize = index;
        let mut row: usize = line;
        let mut column: usize = lineindex;
        loop
            invariant
                self.source() == code,
                n == code.len(),
                code == old(self).source(),
                base == old(self).arena(),
                above == index_model(parent),
                goal == parse_sub(code, base, index as nat, line as nat, lineindex as nat, above),
                index <= n ==> (goal matches Outcome::Failed { complaint, index: stop, .. }
                    ==> complaint == Complaint::UnexpectedEnd ==> stop == n),
                current == base.len(),
                current < self.arena().len(),
                extends_from(base, self.arena(), 0),
                index <= at,
                state != State::Start ==> index < at <= n,
                row - line <= at - index,
                column - lineindex <= at - index,
                line + n - index <= usize::MAX,
                lineindex + n - index <= usize::MAX,
                goal == run(
                    code,
                    Config {
                        arena: self.arena(),
                        node: current as nat,
                        state,
                        token: token@,
                        index: at as nat,
                        line: row as nat,
                        column: column as nat,
                    },
                ),
            decreases n - at, crate::grammar::rank(state),
        {
            let ghost c = Config {
                arena: self.arena(),
                node: current as nat,
                state,
                token: token@,
                index: at as nat,
                line: row as nat,
                column: column as nat,
            };
            if state == State::Done {
                return Ok(ParserSuccess { sub: current, index: at, line: row, lineindex: column });
            }
            proof {
                lemma_complaints_differ();
            }
            if at >= n {
                return Err(ParserError::of(Complaint::UnexpectedEnd, at, row, column));
            }
            let ghost g = code[at as int];
            assert(self.code[at as int]@ == g);
            assert(goal == run(code, c));
            let (next, action) = step(state, glyph_of(self.code[at].as_str()));
            match action {
                Action::Advance => {
                    let place = behind(self.code[at].as_str(), row, column);
                    row = place.0;
                    column = place.1;
                    at = at + 1;
                    state = next;
                },
                Action::Begin => {
                    token = self.code[at].clone();
                    let place = behind(self.code[at].as_str(), row, column);
                    row = place.0;
                    column = place.1;
                    at = at + 1;
                    state = next;
                },
                Action::Extend => {
                    token.append(self.code[at].as_str());
                    let place = behind(self.code[at].as_str(), row, column);
                    row = place.0;
                    column = place.1;
                    at = at + 1;
                    state = next;
                },
                Action::CommitName => {
                    self.set_name(current, token);
                    token = String::new();
                    let place = behind(self.code[at].as_str(), row, column);
                    row = place.0;
                    column = place.1;
                    at = at + 1;
                    state = next;
                },
                Action::EmitValue => {
                    let value = classify(token.as_str());
                    self.push_child(current, value);
                    token = String::new();
                    state = next;
                },
                Action::EmitModifier => {
                    let value = classify(token.as_str());
                    self.set_modifier(current, value);
                    token = String::new();
                    state = next;
                },
                Action::Descend => {
                    match self.parse(at, row, column, Some(current)) {
                        Ok(nested) => {
                            self.push_child(current, Value::NodeRef(nested.sub));
                            at = nested.index;
                            row = nested.line;
                            column = nested.lineindex;
                            state = next;
                        },
                        Err(e) => {
                            return Err(e);
                        },
                    }
                },
                Action::DescendModifier => {
                    match self.parse(at, row, column, Some(current)) {
                        Ok(nested) => {
                            self.set_modifier(current, Value::NodeRef(nested.sub));
                            at = nested.index;
                            row = nested.line;
                            column = nested.lineindex;
                            state = next;
                        },
                        Err(e) => {
                            return Err(e);
                        },
                    }
                },
                Action::Reject(complaint) => {
                    return Err(ParserError::of(complaint, at, row, column));
                },
            }
        }
    }
}

} // verus!
