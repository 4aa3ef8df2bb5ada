//! A parsed program: the arena of its nodes, with the wrapper sub that
//! encloses the source at index 0.

use vstd::prelude::*;
use crate::canon::{canonical, write_closing, write_entries, write_modifier};
use crate::grammar::{parse_sub, run, Config, Outcome};
use crate::grapheme::{grapheme_clusters, lemma_bracket_glyphs, split_graphemes};
use crate::laws::lemma_unterminated_source_fails_at_end;
use crate::machine::{Complaint, State};
use crate::parser::Parser;
use crate::position::{lemma_run_on_track, locate, place, track};
use crate::result::{complaint_kind, complaint_text, ErrorKind, ErrorModel, ParserError};
use crate::shape::well_formed;
use crate::soundness::lemma_parsed_is_well_formed;
use crate::tree::{tree_text, write_tree};
use crate::value::{Node, NodeModel};

verus! {

pub type ProgramResult = Result<Program, ParserError>;

/// The graphemes that open the wrapper sub.
pub open spec fn opening() -> Seq<Seq<char>> {
    seq![seq!['['], seq!['['], seq!['\n']]
}

/// The graphemes that close the wrapper sub.
pub open spec fn closing() -> Seq<Seq<char>> {
    seq![seq!['\n'], seq![']'], seq![']']]
}

/// A source within the wrapper sub: `[[`, a line feed, the source, a line
/// feed, `]]`.
pub open spec fn wrap(body: Seq<Seq<char>>) -> Seq<Seq<char>> {
    opening() + body + closing()
}

/// The grapheme of the source that an index into the wrapped source stands
/// for. What lies in the closing of the wrapper, or behind it, stands for the
/// end of the source.
pub open spec fn unwrapped(body: Seq<Seq<char>>, index: nat) -> nat {
    if index < 3 {
        0
    } else if index - 3 <= body.len() {
        (index - 3) as nat
    } else {
        body.len()
    }
}

/// The program that a sequence of graphemes denotes: the arena that the parse
/// of the wrapped source leaves, or the error that stops it, at its place in
/// the source itself.
pub open spec fn parse_program(body: Seq<Seq<char>>) -> Result<Seq<NodeModel>, ErrorModel> {
    match parse_sub(wrap(body), Seq::empty(), 0, 0, 0, None) {
        Outcome::Parsed { arena, node, index, line, column } => Ok(arena),
        Outcome::Failed { complaint, index, line, column } => {
            let at = unwrapped(body, index);
            Err(
                ErrorModel {
                    kind: complaint_kind(complaint),
                    description: complaint_text(complaint),
                    index: at,
                    line: place(body, at).0,
                    column: place(body, at).1,
                },
            )
        },
    }
}

/// The configuration of the machine once it has read the opening of the
/// wrapper.
pub open spec fn within_wrapper() -> Config {
    Config {
        arena: seq![NodeModel::fresh(None)],
        node: 0,
        state: State::InBody,
        token: Seq::empty(),
        index: 3,
        line: 1,
        column: 0,
    }
}

/// The parse of a wrapped source is the run of the machine from the first
/// grapheme of the source, within the body of the wrapper.
pub proof fn lemma_wrapper_opens(body: Seq<Seq<char>>)
    ensures
        parse_sub(wrap(body), Seq::empty(), 0, 0, 0, None) == run(
            wrap(body),
            within_wrapper(),
        ),
{
    let code = wrap(body);
    let c0 = Config {
        arena: Seq::<NodeModel>::empty().push(NodeModel::fresh(None)),
        node: 0,
        state: State::Start,
        token: Seq::empty(),
        index: 0,
        line: 0,
        column: 0,
    };
    lemma_bracket_glyphs();
    let c1 = c0.consume(code[0]).enter(State::SubOpen);
    let c2 = c1.consume(code[1]).enter(State::InBody);
    let c3 = c2.consume(code[2]).enter(State::InBody);
    assert(code[0] == seq!['[']);
    assert(code[1] == seq!['[']);
    assert(code[2] == seq!['\n']);
    assert(run(code, c0) == run(code, c1));
    assert(run(code, c1) == run(code, c2));
    assert(run(code, c2) == run(code, c3));
    assert(c0.arena =~= seq![NodeModel::fresh(None)]);
    assert(c3 == within_wrapper());
}

/// A grapheme of the source stands one line below its place in the source
/// once the source is wrapped, in the same column.
pub proof fn lemma_place_in_wrapper(body: Seq<Seq<char>>, index: nat)
    requires
        index <= body.len(),
    ensures
        place(wrap(body), index + 3) == (place(body, index).0 + 1, place(body, index).1),
    decreases index,
{
    let code = wrap(body);
    lemma_bracket_glyphs();
    if index == 0 {
        assert(code[0] == seq!['[']);
        assert(code[1] == seq!['[']);
        assert(code[2] == seq!['\n']);
        assert(track(code, 0, 0, 0, 0) == (0nat, 0nat));
        assert(track(code, 0, 0, 0, 1) == (0nat, 1nat));
        assert(track(code, 0, 0, 0, 2) == (0nat, 2nat));
        assert(track(code, 0, 0, 0, 3) == (1nat, 0nat));
    } else {
        lemma_place_in_wrapper(body, (index - 1) as nat);
        assert(code[index as int + 2] == body[index as int - 1]);
    }
}

/// Whether what was returned for a source is what the source denotes.
pub open spec fn denotes(r: ProgramResult, meaning: Result<Seq<NodeModel>, ErrorModel>) -> bool {
    match meaning {
        Ok(arena) => r matches Ok(program) && program@ == arena,
        Err(error) => r matches Err(e) && e@ == error,
    }
}

/// A parsed program.
#[derive(Debug)]
pub struct Program {
    subs: Vec<Node>,
}

impl View for Program {
    type V = Seq<NodeModel>;

    closed spec fn view(&self) -> Seq<NodeModel> {
        self.subs.deep_view()
    }
}

impl Program {
    /// The nodes of the program. The wrapper sub is the first.
    pub fn nodes(&self) -> (nodes: &Vec<Node>)
        ensures
            nodes.deep_view() == self@,
    {
        &self.subs
    }

    /// The picture of the sub `index` and of all that is nested in it, as
    /// text, indented as at the given depth by `stride` columns per level.
    pub fn subtree(&self, index: usize, depth: usize, stride: usize) -> (r: String)
        requires
            index < self@.len(),
            depth + (self@.len() - index) <= usize::MAX,
        ensures
            r@ == tree_text(self@, index as nat, depth as nat, stride as nat),
    {
        let mut out = String::new();
        write_tree(&self.subs, index, depth, stride, &mut out);
        assert(out@ =~= tree_text(self@, index as nat, depth as nat, stride as nat));
        out
    }

    /// The picture of the whole program as text, indented by `stride`
    /// columns per level.
    pub fn tree(&self, stride: usize) -> (r: String)
        requires
            0 < self@.len() < usize::MAX,
        ensures
            r@ == tree_text(self@, 0, 1, stride as nat),
    {
        self.subtree(0, 1, stride)
    }

    /// The canonical source of the program, as graphemes: every name and
    /// every token is one of them.
    pub fn canonical(&self) -> (r: Vec<String>)
        ensures
            r.deep_view() == canonical(self@),
    {
        let mut out: Vec<String> = Vec::new();
        assert(out.deep_view() =~= Seq::<Seq<char>>::empty());
        if self.subs.len() == 0 {
            return out;
        }
        assert(self@[0] == self.subs[0].deep_view());
        write_entries(&self.subs, 0, &mut out);
        if self.subs[0].modifier.is_some() {
            write_closing(&mut out);
            write_modifier(&self.subs, 0, &mut out);
        }
        assert(out.deep_view() =~= canonical(self@));
        out
    }

    /// Parses a source that is given as its graphemes.
    ///
    /// An error is reported at its place in `code`: an error that the parser
    /// meets in the closing of the wrapper, or behind it, is reported just
    /// behind the last grapheme of `code`.
    pub fn from_graphemes(code: Vec<String>) -> (r: ProgramResult)
        ensures
            denotes(r, parse_program(code.deep_view())),
            r matches Err(e) ==> {
                &&& e.kind == ErrorKind::Syntax
                &&& e.index <= code.len()
                &&& (e.line as nat, e.lineindex as nat) == place(code.deep_view(), e.index as nat)
            },
            r matches Err(e) ==> e.description@ == complaint_text(Complaint::UnexpectedEnd)
                ==> e.index == code.len(),
            r matches Ok(program) ==> well_formed(program@),
    {
        let ghost body = code.deep_view();
        proof {
            lemma_parsed_is_well_formed(body);
            lemma_unterminated_source_fails_at_end(body);
        }
        let n: usize = code.len();
        let mut code = code;
        let mut wrapped: Vec<String> = Vec::new();
        wrapped.push(String::from_str("["));
        wrapped.push(String::from_str("["));
        wrapped.push(String::from_str("\n"));
        wrapped.append(&mut code);
        wrapped.push(String::from_str("\n"));
        wrapped.push(String::from_str("]"));
        wrapped.push(String::from_str("]"));
        proof {
            reveal_strlit("[");
            reveal_strlit("]");
            reveal_strlit("\n");
            assert("["@ =~= seq!['[']);
            assert("]"@ =~= seq![']']);
            assert("\n"@ =~= seq!['\n']);
            assert(wrapped.deep_view() =~= wrap(body));
            assert(wrapped.deep_view().len() == wrapped.len());
        }
        let mut parser = Parser::new(wrapped);
        let parsed = parser.parse(0, 0, 0, None);
        proof {
            lemma_wrapper_opens(body);
            lemma_place_in_wrapper(body, 0);
            lemma_run_on_track(wrap(body), within_wrapper(), 0, 0, 0);
        }
        match parsed {
            Ok(_) => Ok(Program { subs: parser.into_nodes() }),
            Err(e) => {
                if e.index - 3 <= n {
                    proof {
                        lemma_place_in_wrapper(body, (e.index - 3) as nat);
                    }
                    Err(
                        ParserError {
                            description: e.description,
                            index: e.index - 3,
                            line: e.line - 1,
                            lineindex: e.lineindex,
                            kind: e.kind,
                        },
                    )
                } else {
                    let end = locate(parser.code(), n + 3);
                    proof {
                        lemma_place_in_wrapper(body, n as nat);
                    }
                    Err(
                        ParserError {
                            description: e.description,
                            index: n,
                            line: end.0 - 1,
                            lineindex: end.1,
                            kind: e.kind,
                        },
                    )
                }
            },
        }
    }

    /// Parses a source text: splits it into its grapheme clusters and parses
    /// those. The wrapper sub is put around the clusters, so that it is made
    /// of graphemes of its own whatever the text begins and ends with.
    ///
    /// A line and a column count grapheme clusters, not bytes.
    pub fn from_code(code: &str) -> (r: ProgramResult)
        ensures
            denotes(r, parse_program(grapheme_clusters(code@))),
            r matches Err(e) ==> {
                &&& e.kind == ErrorKind::Syntax
                &&& e.index <= grapheme_clusters(code@).len()
                &&& (e.line as nat, e.lineindex as nat) == place(
                    grapheme_clusters(code@),
                    e.index as nat,
                )
            },
            r matches Ok(program) ==> well_formed(program@),
    {
        Program::from_graphemes(split_graphemes(code))
    }
}

} // verus!
