use bracket2::grapheme::Glyph;
use bracket2::machine::{step, Action, Complaint, State};
use bracket2::parser::Parser;
use bracket2::position::locate;
use bracket2::program::Program;
use bracket2::result::{ErrorKind, ParserError, ParserSuccess};
use bracket2::value::{Node, Value};

fn singles(text: &str) -> Vec<String> {
    text.chars().map(|c| c.to_string()).collect()
}

fn failure(code: &str) -> ParserError {
    match Program::from_code(code) {
        Ok(_) => panic!("{:?} parses", code),
        Err(e) => e,
    }
}

#[test]
fn new_makes_a_syntax_error() {
    let e = ParserError::new(7, 2, 3, "broken".to_string());
    assert_eq!(e.index, 7);
    assert_eq!(e.line, 2);
    assert_eq!(e.lineindex, 3);
    assert_eq!(e.description, "broken");
    assert_eq!(e.kind, ErrorKind::Syntax);
    assert_eq!(e.description(), "broken");
}

#[test]
fn message_names_line_and_column() {
    let e = ParserError::new(70, 3, 14, "expected sub after sub open".to_string());
    assert_eq!(e.message(), "ParserError on line 3:14: expected sub after sub open");
    let zero = ParserError::new(0, 0, 0, String::new());
    assert_eq!(zero.message(), "ParserError on line 0:0: ");
    let far = ParserError::new(0, 1000, 65536, "x".to_string());
    assert_eq!(far.message(), "ParserError on line 1000:65536: x");
}

#[test]
fn every_complaint_has_its_text_and_kind() {
    let cases = [
        (Complaint::SubExpected, "expected sub after sub open", ErrorKind::Syntax),
        (Complaint::SubExpectedAfterName, "expected sub after sub name", ErrorKind::Syntax),
        (
            Complaint::EndExpectedAfterModifierName,
            "expected sub end after modifier name",
            ErrorKind::Syntax,
        ),
        (Complaint::EndExpectedAfterModifier, "expected sub end after modifier", ErrorKind::Syntax),
        (Complaint::UnexpectedEnd, "unexpected end of input", ErrorKind::Syntax),
        (Complaint::NoOpening, "parse started outside of a sub", ErrorKind::Internal),
        (Complaint::AlreadyDone, "parse continued after the sub's end", ErrorKind::Internal),
    ];
    for (complaint, text, kind) in cases {
        let e = ParserError::of(complaint, 5, 6, 7);
        assert_eq!(e.description, text);
        assert_eq!(e.kind, kind);
        assert_eq!((e.index, e.line, e.lineindex), (5, 6, 7));
    }
}

#[test]
fn closing_bracket_right_after_opening() {
    let e = failure("[]");
    assert_eq!(e.description, "expected sub after sub open");
    assert_eq!(e.kind, ErrorKind::Syntax);
    assert_eq!((e.index, e.line, e.lineindex), (1, 0, 1));
}

#[test]
fn closing_bracket_after_name() {
    let e = failure("[[x] [name]]");
    assert_eq!(e.description, "expected sub after sub open");
    assert_eq!((e.index, e.line, e.lineindex), (10, 0, 10));
}

#[test]
fn opening_bracket_within_modifier_name() {
    let e = failure("[[a]b[");
    assert_eq!(e.description, "expected sub end after modifier name");
    assert_eq!(e.kind, ErrorKind::Syntax);
    assert_eq!((e.index, e.line, e.lineindex), (5, 0, 5));
}

#[test]
fn content_after_modifier() {
    let e = failure("[[a]b c]");
    assert_eq!(e.description, "expected sub end after modifier");
    assert_eq!(e.kind, ErrorKind::Syntax);
    assert_eq!((e.index, e.line, e.lineindex), (6, 0, 6));
    let after_sub = failure("[[a][[b]][[c]]]");
    assert_eq!(after_sub.description, "expected sub end after modifier");
    assert_eq!((after_sub.index, after_sub.line, after_sub.lineindex), (9, 0, 9));
}

#[test]
fn input_ends_within_a_sub() {
    for code in ["[[", "[[a", "[[a]", "[[a]b", "[[]", "[[[[a]]"] {
        let e = failure(code);
        assert_eq!(e.description, "unexpected end of input", "{:?}", code);
        assert_eq!(e.kind, ErrorKind::Syntax);
        assert_eq!((e.index, e.line, e.lineindex), (code.len(), 0, code.len()), "{:?}", code);
    }
}

#[test]
fn input_ends_within_a_name() {
    // the name runs on into the closing of the wrapper
    let e = failure("[a");
    assert_eq!(e.description, "expected sub after sub open");
    assert_eq!((e.index, e.line, e.lineindex), (2, 0, 2));
}

#[test]
fn error_on_a_later_line() {
    let e = failure("[[a]\n  [b]]");
    assert_eq!(e.description, "expected sub after sub open");
    assert_eq!((e.index, e.line, e.lineindex), (9, 1, 4));
    let e = failure("\n\n[[a]b\n\n  [");
    assert_eq!(e.description, "expected sub end after modifier");
    assert_eq!((e.index, e.line, e.lineindex), (11, 4, 2));
}

#[test]
fn end_of_input_behind_a_line_feed() {
    let e = failure("[[a\n");
    assert_eq!(e.description, "unexpected end of input");
    assert_eq!((e.index, e.line, e.lineindex), (4, 1, 0));
}

#[test]
fn columns_count_graphemes() {
    // e with a combining accent is one grapheme, and so is the flag
    let e = failure("[[e\u{301} \u{1F1E9}\u{1F1EA}]x y]");
    assert_eq!(e.description, "expected sub end after modifier");
    assert_eq!((e.index, e.line, e.lineindex), (8, 0, 8));
}

#[test]
fn parse_must_start_at_a_bracket() {
    let mut parser = Parser::new(singles("x[[a]]"));
    let e = parser.parse(0, 0, 0, None).unwrap_err();
    assert_eq!(e.kind, ErrorKind::Internal);
    assert_eq!(e.description, "parse started outside of a sub");
    assert_eq!((e.index, e.line, e.lineindex), (0, 0, 0));
    let mut parser = Parser::new(singles("]"));
    let e = parser.parse(0, 4, 2, None).unwrap_err();
    assert_eq!(e.kind, ErrorKind::Internal);
    assert_eq!((e.index, e.line, e.lineindex), (0, 4, 2));
}

#[test]
fn parse_behind_the_end() {
    let mut parser = Parser::new(singles("[[a]]"));
    let e = parser.parse(9, 1, 1, None).unwrap_err();
    assert_eq!(e.kind, ErrorKind::Syntax);
    assert_eq!(e.description, "unexpected end of input");
    assert_eq!((e.index, e.line, e.lineindex), (9, 1, 1));
}

#[test]
fn parse_returns_the_cursor_behind_the_sub() {
    let mut parser = Parser::new(singles("  [n[a\n b]m] rest"));
    let s = parser.parse(0, 0, 0, None).unwrap();
    assert_eq!(s, ParserSuccess { sub: 0, index: 12, line: 1, lineindex: 5 });
    let nodes = parser.into_nodes();
    assert_eq!(nodes.len(), 1);
    assert_eq!(nodes[0].name, "n");
    assert_eq!(nodes[0].parent, None);
}

#[test]
fn parse_counts_on_from_the_given_place() {
    let mut parser = Parser::new(singles("[[a]][[b\n]]"));
    let first = parser.parse(0, 10, 20, Some(5)).unwrap();
    assert_eq!(first, ParserSuccess { sub: 0, index: 5, line: 10, lineindex: 25 });
    let second = parser.parse(first.index, first.line, first.lineindex, None).unwrap();
    assert_eq!(second, ParserSuccess { sub: 1, index: 11, line: 11, lineindex: 2 });
    let nodes = parser.into_nodes();
    assert_eq!(nodes[0].parent, Some(5));
    assert_eq!(nodes[1].parent, None);
}

#[test]
fn machine_rejects_what_follows_a_closed_name() {
    assert_eq!(
        step(State::NameEnd, Glyph::Other),
        (State::NameEnd, Action::Reject(Complaint::SubExpectedAfterName))
    );
    assert_eq!(step(State::NameEnd, Glyph::Open), (State::InBody, Action::Advance));
    assert_eq!(
        step(State::NameEnd, Glyph::Close),
        (State::NameEnd, Action::Reject(Complaint::SubExpected))
    );
}

#[test]
fn machine_does_not_go_on_when_done() {
    for glyph in [Glyph::Open, Glyph::Close, Glyph::Space, Glyph::Other] {
        assert_eq!(step(State::Done, glyph), (State::Done, Action::Reject(Complaint::AlreadyDone)));
    }
}

#[test]
fn machine_passes_over_blanks_between_entries() {
    for state in [
        State::Start,
        State::SubOpen,
        State::NameEnd,
        State::InBody,
        State::InModifier,
        State::ModifierEnd,
    ] {
        assert_eq!(step(state, Glyph::Space), (state, Action::Advance));
    }
    assert_eq!(step(State::InName, Glyph::Space), (State::NameEnd, Action::CommitName));
    assert_eq!(step(State::InName, Glyph::Other), (State::InName, Action::Extend));
    assert_eq!(step(State::InValue, Glyph::Space), (State::InBody, Action::EmitValue));
    assert_eq!(
        step(State::InModifierName, Glyph::Space),
        (State::ModifierEnd, Action::EmitModifier)
    );
}

#[test]
fn places_in_a_text() {
    let code = singles("ab\ncd\n\ne");
    assert_eq!(locate(&code, 0), (0, 0));
    assert_eq!(locate(&code, 1), (0, 1));
    assert_eq!(locate(&code, 2), (0, 2));
    assert_eq!(locate(&code, 3), (1, 0));
    assert_eq!(locate(&code, 5), (1, 2));
    assert_eq!(locate(&code, 6), (2, 0));
    assert_eq!(locate(&code, 7), (3, 0));
    assert_eq!(locate(&code, 8), (3, 1));
    assert_eq!(locate(&Vec::new(), 0), (0, 0));
}

#[test]
fn default_parser_holds_nothing() {
    let mut parser = Parser::default();
    assert!(parser.code().is_empty());
    let e = parser.parse(0, 0, 0, None).unwrap_err();
    assert_eq!(e.description, "unexpected end of input");
    assert_eq!(e.kind, ErrorKind::Syntax);
    assert_eq!((e.index, e.line, e.lineindex), (0, 0, 0));
    // the node of the sub that was to be parsed is there
    assert_eq!(parser.into_nodes(), vec![Node::new(None)]);
}

#[test]
fn parser_keeps_its_code_and_the_nodes_before() {
    let code = singles("[[a]][x[b]");
    let mut parser = Parser::new(singles("[[a]][x[b]"));
    parser.parse(0, 0, 0, None).unwrap();
    assert_eq!(parser.code(), &code);
    let e = parser.parse(5, 0, 5, Some(0)).unwrap_err();
    assert_eq!(e.description, "unexpected end of input");
    assert_eq!(parser.code(), &code);
    let nodes = parser.into_nodes();
    assert_eq!(nodes.len(), 2);
    assert_eq!(nodes[0].children, vec![Value::Name("a".to_string())]);
    assert_eq!(nodes[1].name, "x");
    assert_eq!(nodes[1].parent, Some(0));
}

#[test]
fn fresh_node() {
    let node = Node::new(Some(3));
    assert_eq!(node.name, "");
    assert!(node.children.is_empty());
    assert_eq!(node.modifier, None);
    assert_eq!(node.parent, Some(3));
}

#[test]
fn something_else_than_a_body_after_a_name() {
    let e = failure("[ my sub [x]]");
    assert_eq!(e.description, "expected sub after sub name");
    assert_eq!(e.kind, ErrorKind::Syntax);
    assert_eq!((e.index, e.line, e.lineindex), (5, 0, 5));
    let e = failure("[[a]]\n[b\n c[x]]");
    assert_eq!(e.description, "expected sub after sub name");
    assert_eq!((e.index, e.line, e.lineindex), (10, 2, 1));
    let e = failure("[b ]");
    assert_eq!(e.description, "expected sub after sub open");
    assert_eq!((e.index, e.line, e.lineindex), (3, 0, 3));
}

#[test]
fn parse_ends_a_name_at_a_blank() {
    let mut parser = Parser::new(singles("[ab [1]]"));
    let s = parser.parse(0, 0, 0, None).unwrap();
    assert_eq!(s, ParserSuccess { sub: 0, index: 8, line: 0, lineindex: 8 });
    let nodes = parser.into_nodes();
    assert_eq!(nodes.len(), 1);
    assert_eq!(nodes[0].name, "ab");
    assert_eq!(nodes[0].children, vec![Value::Integer(1)]);
    assert_eq!(nodes[0].modifier, None);
}

#[test]
fn a_sub_that_the_code_ends_in_fails_at_the_end() {
    for code in ["[", "[ ", "[a", "[a ", "[[", "[[a", "[[a ", "[[a]", "[[a]b", "[[a][[b]]", "[[[[a]]"] {
        let mut parser = Parser::new(singles(code));
        let e = parser.parse(0, 0, 0, None).unwrap_err();
        assert_eq!(e.description, "unexpected end of input", "{:?}", code);
        assert_eq!(e.index, code.len(), "{:?}", code);
    }
}
