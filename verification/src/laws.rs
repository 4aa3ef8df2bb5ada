//! What holds of every parse.

use vstd::prelude::*;
use crate::canon::canonical;
use crate::grammar::{parse_sub, run, Outcome};
use crate::grapheme::{glyph, grapheme_clusters, lemma_bracket_glyphs, Glyph};
use crate::machine::{Complaint, State};
use crate::position::{lemma_parse_sub_on_track, lemma_run_on_track, place, track};
use crate::program::{
    denotes, lemma_place_in_wrapper, lemma_wrapper_opens, parse_program, within_wrapper, wrap,
    ProgramResult,
};
use crate::roundtrip::lemma_canonical_reads_back;
use crate::soundness::lemma_parsed_is_well_formed;
use crate::structure::{blank_between, lemma_parse_sub_keeps, lemma_skip_blanks, moved_to};
use crate::result::complaint_text;
use crate::value::{NodeModel, ValueModel};

verus! {

/// Whether two results are the same: equal programs, or equal errors.
pub open spec fn same_result(first: ProgramResult, second: ProgramResult) -> bool {
    match (first, second) {
        (Ok(p), Ok(q)) => p@ == q@,
        (Err(e), Err(f)) => e@ == f@,
        _ => false,
    }
}

/// Parsing is deterministic: whatever is returned for a text, twice, is the
/// same program, or the same error.
pub proof fn lemma_parse_is_deterministic(text: Seq<char>, first: ProgramResult, second: ProgramResult)
    requires
        denotes(first, parse_program(grapheme_clusters(text))),
        denotes(second, parse_program(grapheme_clusters(text))),
    ensures
        same_result(first, second),
{
}

/// Whether `body` holds exactly one sub, from grapheme `from` up to `to`, and
/// nothing but blanks around it. The sub is one that parses where it stands:
/// within the wrapper, as its first child.
pub open spec fn holds_one_sub(body: Seq<Seq<char>>, from: nat, to: nat) -> bool {
    &&& from < to <= body.len()
    &&& blank_between(body, 0, from)
    &&& glyph(body[from as int]) == Glyph::Open
    &&& parse_sub(
        wrap(body),
        seq![NodeModel::fresh(None)],
        from + 3,
        place(wrap(body), from + 3).0,
        place(wrap(body), from + 3).1,
        Some(0),
    ) matches Outcome::Parsed { index, .. } && index == to + 3
    &&& blank_between(body, to, body.len())
}

/// The node of the wrapper around a source that holds one sub.
pub open spec fn wrapper_of_one() -> NodeModel {
    NodeModel {
        name: Seq::empty(),
        children: seq![ValueModel::NodeRef(1)],
        modifier: None,
        parent: None,
    }
}

/// A source that holds one sub, and blanks around it, parses. The wrapper is
/// node 0; it has no name, no modifier, no parent, and exactly one child: the
/// sub, which is node 1.
pub proof fn lemma_one_sub_one_child(body: Seq<Seq<char>>, from: nat, to: nat)
    requires
        holds_one_sub(body, from, to),
    ensures
        parse_program(body) matches Ok(arena) && arena.len() >= 2 && arena[0] == wrapper_of_one(),
{
    let code = wrap(body);
    let n = body.len();
    lemma_bracket_glyphs();
    lemma_wrapper_opens(body);
    let c3 = within_wrapper();
    lemma_place_in_wrapper(body, 0);
    assert forall|i: int| 3 <= i < from + 3 implies glyph(#[trigger] code[i]) == Glyph::Space by {
        assert(code[i] == body[i - 3]);
    }
    lemma_skip_blanks(code, c3, from + 3);
    let c4 = moved_to(code, c3, from + 3);
    assert(c4.line == place(code, from + 3).0 && c4.column == place(code, from + 3).1) by {
        lemma_track_from_origin(code, 3, from + 3);
    }
    assert(code[from as int + 3] == body[from as int]);
    let nested = parse_sub(code, c4.arena, c4.index, c4.line, c4.column, Some(0));
    lemma_parse_sub_keeps(code, c4.arena, c4.index, c4.line, c4.column, Some(0));
    match nested {
        Outcome::Parsed { arena, node, index, line, column } => {
            let resumed = c4.resume(arena, index, line, column);
            let c5 = resumed.enter(State::InBody).with_node(
                resumed.current().with_child(ValueModel::NodeRef(node)),
            );
            assert(run(code, c4) == run(code, c5));
            assert(c5.arena[0] =~= wrapper_of_one()) by {
                assert(arena[0] == NodeModel::fresh(None));
                assert(c5.arena[0].children =~= seq![ValueModel::NodeRef(1)]);
            }
            assert forall|i: int| to + 3 <= i < n + 4 implies glyph(#[trigger] code[i])
                == Glyph::Space by {
                if i < n + 3 {
                    assert(code[i] == body[i - 3]);
                } else {
                    assert(code[i] == seq!['\n']);
                }
            }
            lemma_skip_blanks(code, c5, n + 4);
            let c6 = moved_to(code, c5, n + 4);
            assert(code[n as int + 4] == seq![']']);
            assert(code[n as int + 5] == seq![']']);
            let c7 = c6.consume(code[n as int + 4]).enter(State::InModifier);
            let c8 = c7.consume(code[n as int + 5]).enter(State::Done);
            assert(run(code, c6) == run(code, c7));
            assert(run(code, c7) == run(code, c8));
            assert(c8.arena == c5.arena);
        },
        Outcome::Failed { .. } => {},
    }
}

/// Position accuracy: where the parse of a wrapped source fails, it fails
/// behind the opening of the wrapper; and where it fails within the source
/// or just behind it, the machine's counters are one line below the place of
/// the offending grapheme in the source itself, in the same column.
pub proof fn lemma_error_place(body: Seq<Seq<char>>)
    ensures
        parse_sub(wrap(body), Seq::empty(), 0, 0, 0, None) matches Outcome::Failed {
            index,
            line,
            column,
            ..
        } ==> {
            &&& index >= 3
            &&& index - 3 <= body.len() ==> {
                &&& line == place(body, (index - 3) as nat).0 + 1
                &&& column == place(body, (index - 3) as nat).1
            }
        },
{
    lemma_wrapper_opens(body);
    lemma_place_in_wrapper(body, 0);
    lemma_run_on_track(wrap(body), within_wrapper(), 0, 0, 0);
    match parse_sub(wrap(body), Seq::empty(), 0, 0, 0, None) {
        Outcome::Failed { index, .. } => {
            if index - 3 <= body.len() {
                lemma_place_in_wrapper(body, (index - 3) as nat);
            }
        },
        _ => {},
    }
}

/// A sub that the code ends in fails just behind the last grapheme: where
/// the parse of a sub that opens within the code fails for want of input, it
/// fails at the length of the code.
pub proof fn lemma_unterminated_fails_at_end(
    code: Seq<Seq<char>>,
    arena: Seq<NodeModel>,
    index: nat,
    line: nat,
    column: nat,
    parent: Option<nat>,
)
    requires
        index <= code.len(),
    ensures
        parse_sub(code, arena, index, line, column, parent) matches Outcome::Failed {
            complaint,
            index: at,
            ..
        } ==> (complaint == Complaint::UnexpectedEnd ==> at == code.len()),
{
    lemma_parse_sub_on_track(code, arena, index, line, column, parent, index, line, column);
}

/// A source that ends within a sub fails just behind its last grapheme:
/// where the parse of a source fails for want of input, the error stands at
/// the length of the source.
pub proof fn lemma_unterminated_source_fails_at_end(body: Seq<Seq<char>>)
    ensures
        parse_program(body) matches Err(e) ==> (e.description == complaint_text(
            Complaint::UnexpectedEnd,
        ) ==> e.index == body.len()),
{
    lemma_unterminated_fails_at_end(wrap(body), Seq::empty(), 0, 0, 0, None);
    lemma_complaints_differ();
}

/// No two complaints have the same description.
pub proof fn lemma_complaints_differ()
    ensures
        forall|a: Complaint, b: Complaint| #[trigger]
            complaint_text(a) == #[trigger] complaint_text(b) ==> a == b,
{
    reveal_strlit("expected sub after sub open");
    reveal_strlit("expected sub after sub name");
    reveal_strlit("expected sub end after modifier name");
    reveal_strlit("expected sub end after modifier");
    reveal_strlit("unexpected end of input");
    reveal_strlit("parse started outside of a sub");
    reveal_strlit("parse continued after the sub's end");
    assert(complaint_text(Complaint::SubExpected).len() == 27);
    assert(complaint_text(Complaint::SubExpectedAfterName).len() == 27);
    assert(complaint_text(Complaint::SubExpected)[26] == 'n');
    assert(complaint_text(Complaint::SubExpectedAfterName)[26] == 'e');
    assert(complaint_text(Complaint::EndExpectedAfterModifierName).len() == 36);
    assert(complaint_text(Complaint::EndExpectedAfterModifier).len() == 31);
    assert(complaint_text(Complaint::UnexpectedEnd).len() == 23);
    assert(complaint_text(Complaint::NoOpening).len() == 30);
    assert(complaint_text(Complaint::AlreadyDone).len() == 35);
}

/// Round trip: where a source parses, the canonical source of the parsed
/// program parses too, and to the same program. The source is a sequence of
/// graphemes; so is the canonical source, in which every name and every
/// token is one unit.
pub proof fn lemma_round_trip(body: Seq<Seq<char>>)
    ensures
        parse_program(body) matches Ok(arena) ==> parse_program(canonical(arena))
            == parse_program(body),
{
    lemma_parsed_is_well_formed(body);
    match parse_program(body) {
        Ok(arena) => {
            lemma_canonical_reads_back(arena);
        },
        Err(_) => {},
    }
}

/// Counting lines and columns from the start of the code, or on from a
/// grapheme whose place is known, gives the same.
pub proof fn lemma_track_from_origin(code: Seq<Seq<char>>, start: nat, index: nat)
    requires
        start <= index,
    ensures
        track(code, start, place(code, start).0, place(code, start).1, index) == place(
            code,
            index,
        ),
    decreases index,
{
    if index > start {
        lemma_track_from_origin(code, start, (index - 1) as nat);
    }
}

} // verus!
