use bracket2::canon::{token_string, write_closing, write_entries, write_modifier, write_sub};
use bracket2::grapheme::{ends_line, glyph_of, Glyph};
use bracket2::program::Program;
use bracket2::value::{Node, Value};
use unicode_segmentation::UnicodeSegmentation;

fn name(s: &str) -> Value {
    Value::Name(s.to_string())
}

fn node(name: &str, children: Vec<Value>, modifier: Option<Value>, parent: Option<usize>) -> Node {
    Node { name: name.to_string(), children, modifier, parent }
}

fn parse(code: &str) -> Program {
    match Program::from_code(code) {
        Ok(program) => program,
        Err(e) => panic!("{:?} fails: {}", code, e.message()),
    }
}

/// The canonical source of a program as one text.
fn canonical(program: &Program) -> String {
    program.canonical().concat()
}

#[test]
fn sample_program() {
    let code = "\n[f[\n  [[ [[ test &0 ] [[1]sub] ] ] [[f][[ [[[[&2][[0]cmp]]]neg] ]con]] ]\n]]\n[[2]f]";
    let program = parse(code);
    let expected = vec![
        node("", vec![Value::NodeRef(1), Value::NodeRef(10)], None, None),
        node("f", vec![Value::NodeRef(2)], None, Some(0)),
        node("", vec![Value::NodeRef(3)], Some(Value::NodeRef(5)), Some(1)),
        node("", vec![name("test"), Value::BackReference(0)], Some(Value::NodeRef(4)), Some(2)),
        node("", vec![Value::Integer(1)], Some(name("sub")), Some(3)),
        node("", vec![name("f")], Some(Value::NodeRef(6)), Some(2)),
        node("", vec![Value::NodeRef(7)], Some(name("con")), Some(5)),
        node("", vec![Value::NodeRef(8)], Some(name("neg")), Some(6)),
        node("", vec![Value::BackReference(2)], Some(Value::NodeRef(9)), Some(7)),
        node("", vec![Value::Integer(0)], Some(name("cmp")), Some(8)),
        node("", vec![Value::Integer(2)], Some(name("f")), Some(0)),
    ];
    assert_eq!(program.nodes(), &expected);
}

#[test]
fn one_sub_makes_one_child() {
    for code in ["[[a]]", "  [[a]]\n", "\n\t[x[ [[1]] 2 ]m]  \r \n", "[[]]"] {
        let program = parse(code);
        let root = &program.nodes()[0];
        assert_eq!(root.children, vec![Value::NodeRef(1)], "{:?}", code);
        assert_eq!(root.name, "");
        assert_eq!(root.modifier, None);
        assert_eq!(root.parent, None);
    }
}

#[test]
fn the_wrapper_holds_all_top_level_entries() {
    assert_eq!(parse("").nodes(), &vec![node("", vec![], None, None)]);
    assert_eq!(parse(" \n ").nodes(), &vec![node("", vec![], None, None)]);
    assert_eq!(parse("hello").nodes(), &vec![node("", vec![name("hello")], None, None)]);
    let two = parse("[[a]] [[b]]");
    assert_eq!(two.nodes()[0].children, vec![Value::NodeRef(1), Value::NodeRef(2)]);
    let mixed = parse("1 [[b]] 2.5");
    assert_eq!(
        mixed.nodes()[0].children,
        vec![Value::Integer(1), Value::NodeRef(1), Value::Float("2.5".to_string())]
    );
}

#[test]
fn names_and_blanks() {
    let program = parse("[ mysub [ a\tb\r\n\nc\rd ] mod ]");
    // a name starts at its first grapheme and runs up to the blank
    assert_eq!(
        program.nodes()[1],
        node(
            "mysub",
            vec![name("a"), name("b\r\n"), name("c"), name("d")],
            Some(name("mod")),
            Some(0)
        )
    );
}

#[test]
fn carriage_return_and_line_feed_together_are_no_blank() {
    // the two form one grapheme, which is neither a carriage return nor a
    // line feed
    let program = parse("[[a\r\nb]]");
    assert_eq!(program.nodes()[1].children, vec![name("a\r\nb")]);
    let program = parse("[[a \r\n b]]");
    assert_eq!(program.nodes()[1].children, vec![name("a"), name("\r\n"), name("b")]);
}

#[test]
fn source_that_ends_in_a_carriage_return() {
    let program = parse("[[a]]\r");
    assert_eq!(program.nodes()[0].children, vec![Value::NodeRef(1)]);
    assert_eq!(program.nodes().len(), 2);
}

#[test]
fn tokens_end_at_brackets() {
    let program = parse("[[a[[b]]c]]");
    assert_eq!(
        program.nodes(),
        &vec![
            node("", vec![Value::NodeRef(1)], None, None),
            node("", vec![name("a"), Value::NodeRef(2), name("c")], None, Some(0)),
            node("", vec![name("b")], None, Some(1)),
        ]
    );
}

#[test]
fn graphemes_are_not_split() {
    let program = parse("[e\u{301}[ \u{1F1E9}\u{1F1EA} x\u{308}y ]\u{5d0}]");
    assert_eq!(
        program.nodes()[1],
        node(
            "e\u{301}",
            vec![name("\u{1F1E9}\u{1F1EA}"), name("x\u{308}y")],
            Some(name("\u{5d0}")),
            Some(0)
        )
    );
}

#[test]
fn a_bracket_with_a_combining_mark_is_no_bracket() {
    let program = parse("[[a ]\u{301}b]]");
    assert_eq!(program.nodes()[1], node("", vec![name("a"), name("]\u{301}b")], None, Some(0)));
}

#[test]
fn from_graphemes_takes_any_split() {
    let code: Vec<String> = ["[", "[", "ab", "1", " ", "2", "]", "]"].iter().map(|g| g.to_string()).collect();
    let program = Program::from_graphemes(code).unwrap();
    assert_eq!(program.nodes()[1].children, vec![name("ab1"), Value::Integer(2)]);
}

#[test]
fn from_code_splits_as_the_segmenter_does() {
    let code = "[n[ e\u{301} 12 &3 4.5 [[x]y] ]\r\n]";
    let split: Vec<String> = code.graphemes(true).map(String::from).collect();
    let direct = Program::from_graphemes(split).unwrap();
    assert_eq!(parse(code).nodes(), direct.nodes());
}

#[test]
fn glyphs() {
    assert_eq!(glyph_of("["), Glyph::Open);
    assert_eq!(glyph_of("]"), Glyph::Close);
    for blank in [" ", "\t", "\r", "\n"] {
        assert_eq!(glyph_of(blank), Glyph::Space);
    }
    for other in ["a", "", "[[", "\r\n", " \u{301}", "\u{a0}", "\u{b}", "0", "&", "."] {
        assert_eq!(glyph_of(other), Glyph::Other, "{:?}", other);
    }
    assert!(ends_line("\n"));
    for other in ["\r", "\r\n", "", " ", "\n\n", "\u{2028}"] {
        assert!(!ends_line(other), "{:?}", other);
    }
}

#[test]
fn canonical_source_parses_to_the_same_program() {
    for code in [
        "",
        "[[a]]",
        "  [f[ [[ test &0 ] [[1]sub] ] ]]\n[[2]f]",
        "\n[f[\n  [[ [[ test &0 ] [[1]sub] ] ] [[f][[ [[[[&2][[0]cmp]]]neg] ]con]] ]\n]]\n[[2]f]",
        "[ mysub [ 007 &007 & 1.50 99999999999999999999 x ] 0042 ]",
        "a [[b]] c",
        "[[a]][[b]]",
        "a ] b",
        "[[x]] ] [[y]z]",
        "[e\u{301}[ \u{1F1E9}\u{1F1EA} x\u{308}y a\r\nb ]\u{5d0}]",
    ] {
        let first = parse(code);
        let again = Program::from_graphemes(first.canonical()).unwrap();
        assert_eq!(first.nodes(), again.nodes(), "{:?}", code);
        assert_eq!(first.canonical(), again.canonical(), "{:?}", code);
    }
}

#[test]
fn canonical_text_parses_to_the_same_program() {
    for code in [
        "  [f[ [[ test &0 ] [[1]sub] ] ]]\n[[2]f]",
        "[ mysub [ 007 &007 & 1.50 99999999999999999999 x ] 0042 ]",
        "a ] 12",
    ] {
        let first = parse(code);
        let again = parse(&canonical(&first));
        assert_eq!(first.nodes(), again.nodes(), "{:?}", code);
    }
}

#[test]
fn canonical_source_of_samples() {
    assert_eq!(canonical(&parse("")), "");
    assert_eq!(canonical(&parse("  [ f [ 007 [[ &01 ]  x ] ] [[y]] ] ")), "[f[7 [[&1 ]x]][[y ]]]");
    assert_eq!(canonical(&parse("a ] b")), "a ]b");
    assert_eq!(canonical(&parse("[[1.50]] ][[2]]")), "[[1.50 ]]][[2 ]]");
    let units = parse("[ mysub [ ab &2 ]]").canonical();
    assert_eq!(units, vec!["[", "mysub", "[", "ab", " ", "&2", " ", "]", "]"]);
}

#[test]
fn tokens_as_written() {
    assert_eq!(token_string(&Value::Integer(0)), "0");
    assert_eq!(token_string(&Value::Integer(1905)), "1905");
    assert_eq!(token_string(&Value::Integer(i64::MAX)), "9223372036854775807");
    assert_eq!(token_string(&Value::Integer(-1)), "-1");
    assert_eq!(token_string(&Value::Integer(i64::MIN)), "-9223372036854775808");
    assert_eq!(token_string(&Value::BackReference(0)), "&0");
    assert_eq!(token_string(&Value::BackReference(31)), "&31");
    assert_eq!(token_string(&name("x y")), "x y");
    assert_eq!(token_string(&Value::Float("01.50".to_string())), "01.50");
    assert_eq!(token_string(&Value::NodeRef(3)), "");
}

#[test]
fn subs_are_written_with_what_is_nested_in_them() {
    let program = parse("[a[ 1 [b[ 2 ]c] ][[3]]] [[4]]");
    let mut out = vec!["<".to_string()];
    write_sub(program.nodes(), 2, &mut out);
    assert_eq!(out.concat(), "<[b[2 ]c]");
    let mut out = Vec::new();
    write_sub(program.nodes(), 1, &mut out);
    assert_eq!(out.concat(), "[a[1 [b[2 ]c]][[3 ]]]");
    let mut out = Vec::new();
    write_entries(program.nodes(), 0, &mut out);
    assert_eq!(out.concat(), "[a[1 [b[2 ]c]][[3 ]]][[4 ]]");
    let mut out = Vec::new();
    write_modifier(program.nodes(), 1, &mut out);
    assert_eq!(out.concat(), "[[3 ]]");
    let mut out = Vec::new();
    write_modifier(program.nodes(), 2, &mut out);
    assert_eq!(out.concat(), "c");
    let mut out = Vec::new();
    write_sub(program.nodes(), 9, &mut out);
    assert_eq!(out.concat(), "");
    let mut out = vec!["x".to_string()];
    write_closing(&mut out);
    assert_eq!(out.concat(), "x]");
}

#[test]
fn nested_subs_follow_their_parent_in_the_arena() {
    let program = parse("[a[ [[x]] 1 [[ [[y]] ]m] ][[z]]] [[w]]");
    let nodes = program.nodes();
    assert_eq!(nodes.len(), 7);
    assert_eq!(nodes[0].children, vec![Value::NodeRef(1), Value::NodeRef(6)]);
    assert_eq!(
        nodes[1].children,
        vec![Value::NodeRef(2), Value::Integer(1), Value::NodeRef(3)]
    );
    assert_eq!(nodes[1].modifier, Some(Value::NodeRef(5)));
    assert_eq!(nodes[3].children, vec![Value::NodeRef(4)]);
    let parents: Vec<Option<usize>> = nodes.iter().map(|n| n.parent).collect();
    assert_eq!(parents, vec![None, Some(0), Some(1), Some(1), Some(3), Some(1), Some(0)]);
}

#[test]
fn a_blank_ends_a_name() {
    for code in ["[ab [1]]", "[ab\n[1]]", "[ ab \t\r [1]]", "[ab[1]]"] {
        let program = parse(code);
        assert_eq!(
            program.nodes()[1],
            node("ab", vec![Value::Integer(1)], None, Some(0)),
            "{:?}",
            code
        );
    }
}

#[test]
fn only_the_wrapper_has_no_parent() {
    // the source closes the body of the wrapper itself and gives it a modifier
    let program = parse("][[x]]");
    assert_eq!(
        program.nodes(),
        &vec![
            node("", vec![], Some(Value::NodeRef(1)), None),
            node("", vec![name("x")], None, Some(0)),
        ]
    );
}
