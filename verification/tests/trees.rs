use bracket2::program::Program;
use bracket2::tree::write_tree;

fn parse(code: &str) -> Program {
    Program::from_code(code).expect("the source is well formed")
}

#[test]
fn tree_of_every_kind_of_value() {
    let program = parse("[f[ a 1 &2 3.5 [[x]] ]m]");
    let expected = "- sub\n\
                    | subs:\n\
                    | - sub (f)\n\
                    | | subs:\n\
                    | | -> (a)\n\
                    | | _ 1\n\
                    | | -> &2\n\
                    | | _ 3.5\n\
                    | | - sub\n\
                    | | | subs:\n\
                    | | | -> (x)\n\
                    | | mod:\n\
                    | | -> (m)";
    assert_eq!(program.tree(1), expected);
}

#[test]
fn tree_of_an_empty_program() {
    assert_eq!(parse("").tree(1), "- sub\n");
    assert_eq!(parse(" \n ").tree(4), "- sub\n");
}

#[test]
fn tree_with_a_sub_as_modifier() {
    let program = parse("[[a][[b]c]] 7");
    let expected = "- sub\n\
                    |  subs:\n\
                    |  - sub\n\
                    |  |  subs:\n\
                    |  |  -> (a)\n\
                    |  |  mod:\n\
                    |  |  - sub\n\
                    |  |  |  subs:\n\
                    |  |  |  -> (b)\n\
                    |  |  |  mod:\n\
                    |  |  |  -> (c)\n\
                    |  _ 7";
    assert_eq!(program.tree(2), expected);
}

#[test]
fn tree_without_stride() {
    let program = parse("[n[]] [[&0]]");
    assert_eq!(program.tree(0), "- sub\n|subs:\n|- sub (n)\n\n|- sub\n||subs:\n||-> &0");
}

#[test]
fn subtree_at_a_depth() {
    let program = parse("[f[ a [[x]9] ]m]");
    assert_eq!(program.subtree(2, 1, 0), "- sub\n|subs:\n|-> (x)\n|mod:\n|_ 9");
    assert_eq!(program.subtree(2, 0, 3), "- sub\nsubs:\n-> (x)\nmod:\n_ 9");
    assert_eq!(program.subtree(2, 2, 1), "- sub\n| | subs:\n| | -> (x)\n| | mod:\n| | _ 9");
    assert_eq!(program.subtree(0, 1, 1), program.tree(1));
}

#[test]
fn floats_are_shown_as_written() {
    assert_eq!(parse("1.50 007").tree(1), "- sub\n| subs:\n| _ 1.50\n| _ 7");
}

#[test]
fn write_tree_appends() {
    let program = parse("[[a]]");
    let mut out = "tree: ".to_string();
    write_tree(program.nodes(), 1, 1, 1, &mut out);
    assert_eq!(out, "tree: - sub\n| subs:\n| -> (a)");
}

#[test]
fn tree_of_the_sample() {
    let code = "\n[f[\n  [[ [[ test &0 ] [[1]sub] ] ] [[f][[ [[[[&2][[0]cmp]]]neg] ]con]] ]\n]]\n[[2]f]";
    let expected = "- sub\n\
                    | subs:\n\
                    | - sub (f)\n\
                    | | subs:\n\
                    | | - sub\n\
                    | | | subs:\n\
                    | | | - sub\n\
                    | | | | subs:\n\
                    | | | | -> (test)\n\
                    | | | | -> &0\n\
                    | | | | mod:\n\
                    | | | | - sub\n\
                    | | | | | subs:\n\
                    | | | | | _ 1\n\
                    | | | | | mod:\n\
                    | | | | | -> (sub)\n\
                    | | | mod:\n\
                    | | | - sub\n\
                    | | | | subs:\n\
                    | | | | -> (f)\n\
                    | | | | mod:\n\
                    | | | | - sub\n\
                    | | | | | subs:\n\
                    | | | | | - sub\n\
                    | | | | | | subs:\n\
                    | | | | | | - sub\n\
                    | | | | | | | subs:\n\
                    | | | | | | | -> &2\n\
                    | | | | | | | mod:\n\
                    | | | | | | | - sub\n\
                    | | | | | | | | subs:\n\
                    | | | | | | | | _ 0\n\
                    | | | | | | | | mod:\n\
                    | | | | | | | | -> (cmp)\n\
                    | | | | | | mod:\n\
                    | | | | | | -> (neg)\n\
                    | | | | | mod:\n\
                    | | | | | -> (con)\n\
                    | - sub\n\
                    | | subs:\n\
                    | | _ 2\n\
                    | | mod:\n\
                    | | -> (f)";
    assert_eq!(parse(code).tree(1), expected);
}
