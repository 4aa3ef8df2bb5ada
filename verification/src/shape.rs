//! The shape of a parsed program: the nodes of a sub follow it in the arena,
//! each nested sub behind the one before it, and every token is one that the
//! classifier gives.

use vstd::prelude::*;
use crate::digits::{decimal_digits, lemma_decimal_digits};
use crate::grapheme::{glyph, Glyph};
use crate::literal::{classify_spec, is_back_reference, is_integer};
use crate::value::{NodeModel, ValueModel};

verus! {

/// A token as the canonical source writes it: a name or a float as it is, a
/// number as its decimal numeral, a back-reference as `&` and the numeral.
/// (No source gives a negative integer; one would be written with its sign.)
pub open spec fn token_text(v: ValueModel) -> Seq<char> {
    match v {
        ValueModel::NodeRef(_) => Seq::empty(),
        ValueModel::BackReference(n) => seq!['&'] + decimal_digits(n),
        ValueModel::Name(s) => s,
        ValueModel::Integer(i) => if i >= 0 {
            decimal_digits(i as nat)
        } else {
            seq!['-'] + decimal_digits((-i) as nat)
        },
        ValueModel::Float(s) => s,
    }
}

/// Whether a value is a token that reads back as itself: written down, it is
/// one grapheme-like unit that is neither a bracket nor a blank, and the
/// classifier gives the value for it.
pub open spec fn valid_token(v: ValueModel) -> bool {
    &&& !(v is NodeRef)
    &&& glyph(token_text(v)) == Glyph::Other
    &&& classify_spec(token_text(v)) == v
}

/// The index in the arena at which the next sub nested in sub `k` stands,
/// once its first `upto` children are there.
pub open spec fn cursor_after(a: Seq<NodeModel>, k: nat, upto: nat) -> nat
    decreases a.len() - k, 1nat, upto,
{
    if upto == 0 || k >= a.len() || upto > a[k as int].children.len() {
        k + 1
    } else {
        let before = cursor_after(a, k, (upto - 1) as nat);
        match a[k as int].children[upto - 1] {
            ValueModel::NodeRef(m) => if k < m < a.len() {
                extent(a, m)
            } else {
                before
            },
            _ => before,
        }
    }
}

/// The index behind the last node of sub `k` and of all that is nested in it.
pub open spec fn extent(a: Seq<NodeModel>, k: nat) -> nat
    decreases a.len() - k, 2nat, 0nat,
{
    if k >= a.len() {
        k + 1
    } else {
        let inner = cursor_after(a, k, a[k as int].children.len());
        match a[k as int].modifier {
            Some(ValueModel::NodeRef(m)) => if k < m < a.len() {
                extent(a, m)
            } else {
                inner
            },
            _ => inner,
        }
    }
}

/// Whether child `j` of sub `k` is a valid token, or a nested sub that
/// stands where the children before it end and has `k` as its parent.
pub open spec fn entry_ok(a: Seq<NodeModel>, k: nat, j: int) -> bool {
    match a[k as int].children[j] {
        ValueModel::NodeRef(m) => {
            &&& k < m < a.len()
            &&& m == cursor_after(a, k, j as nat)
            &&& a[m as int].parent == Some(k)
        },
        v => valid_token(v),
    }
}

/// Whether the modifier of sub `k` is none, a valid token, or a sub that
/// stands where the children end and has `k` as its parent.
pub open spec fn modifier_ok(a: Seq<NodeModel>, k: nat) -> bool {
    match a[k as int].modifier {
        None => true,
        Some(ValueModel::NodeRef(m)) => {
            &&& k < m < a.len()
            &&& m == cursor_after(a, k, a[k as int].children.len())
            &&& a[m as int].parent == Some(k)
        },
        Some(v) => valid_token(v),
    }
}

/// Whether a name is none, or one that reads back as itself.
pub open spec fn name_ok(name: Seq<char>) -> bool {
    name.len() == 0 || glyph(name) == Glyph::Other
}

/// Whether node `k` is well formed.
pub open spec fn node_ok(a: Seq<NodeModel>, k: nat) -> bool {
    &&& k < a.len()
    &&& name_ok(a[k as int].name)
    &&& forall|j: int| 0 <= j < a[k as int].children.len() ==> #[trigger] entry_ok(a, k, j)
    &&& modifier_ok(a, k)
    &&& extent(a, k) <= a.len()
}

/// Whether every node from `lo` on is well formed.
pub open spec fn all_ok_from(a: Seq<NodeModel>, lo: nat) -> bool {
    forall|i: nat| lo <= i < a.len() ==> #[trigger] node_ok(a, i)
}

/// Whether every node behind node `lo` has a parent.
pub open spec fn all_enclosed_behind(a: Seq<NodeModel>, lo: nat) -> bool {
    forall|i: int| lo < i < a.len() ==> (#[trigger] a[i]).parent is Some
}

/// Whether an arena is that of a program: the wrapper is node 0, without
/// name or parent; every other node has a parent; every node is well formed;
/// and all nodes belong to the wrapper's tree.
pub open spec fn well_formed(a: Seq<NodeModel>) -> bool {
    &&& a.len() >= 1
    &&& a[0].name.len() == 0
    &&& a[0].parent == None::<nat>
    &&& all_enclosed_behind(a, 0)
    &&& all_ok_from(a, 0)
    &&& extent(a, 0) == a.len()
}

/// Whether `b` is no shorter than `a` and holds its nodes from `lo` on.
pub open spec fn extends_from(a: Seq<NodeModel>, b: Seq<NodeModel>, lo: nat) -> bool {
    &&& a.len() <= b.len()
    &&& forall|i: int| lo <= i < a.len() ==> b[i] == a[i]
}

/// Nested subs stand behind their parent.
pub proof fn lemma_extent_is_behind(a: Seq<NodeModel>, k: nat)
    ensures
        extent(a, k) > k,
    decreases a.len() - k, 2nat, 0nat,
{
    if k < a.len() {
        lemma_cursor_is_behind(a, k, a[k as int].children.len());
        match a[k as int].modifier {
            Some(ValueModel::NodeRef(m)) => {
                if k < m < a.len() {
                    lemma_extent_is_behind(a, m);
                }
            },
            _ => {},
        }
    }
}

/// The subs nested in a sub stand behind it.
pub proof fn lemma_cursor_is_behind(a: Seq<NodeModel>, k: nat, upto: nat)
    ensures
        cursor_after(a, k, upto) > k,
    decreases a.len() - k, 1nat, upto,
{
    if !(upto == 0 || k >= a.len() || upto > a[k as int].children.len()) {
        lemma_cursor_is_behind(a, k, (upto - 1) as nat);
        match a[k as int].children[upto - 1] {
            ValueModel::NodeRef(m) => {
                if k < m < a.len() {
                    lemma_extent_is_behind(a, m);
                }
            },
            _ => {},
        }
    }
}

/// Where the nested subs of `k` stand depends on its children and on the
/// nodes behind it alone.
pub proof fn lemma_cursor_extends(a: Seq<NodeModel>, b: Seq<NodeModel>, k: nat, upto: nat)
    requires
        k < a.len(),
        extends_from(a, b, k + 1),
        all_ok_from(a, k + 1),
        upto <= a[k as int].children.len(),
        upto <= b[k as int].children.len(),
        forall|j: int| 0 <= j < upto ==> #[trigger] b[k as int].children[j] == a[k as int].children[j],
        forall|j: int| 0 <= j < upto ==> #[trigger] entry_ok(a, k, j),
    ensures
        cursor_after(b, k, upto) == cursor_after(a, k, upto),
    decreases a.len() - k, 1nat, upto,
{
    if upto > 0 {
        lemma_cursor_extends(a, b, k, (upto - 1) as nat);
        assert(entry_ok(a, k, upto - 1));
        match a[k as int].children[upto - 1] {
            ValueModel::NodeRef(m) => {
                lemma_extent_extends(a, b, m);
            },
            _ => {},
        }
    }
}

/// The extent of a well-formed sub depends on its own nodes alone.
pub proof fn lemma_extent_extends(a: Seq<NodeModel>, b: Seq<NodeModel>, k: nat)
    requires
        k < a.len(),
        extends_from(a, b, k),
        all_ok_from(a, k),
    ensures
        extent(b, k) == extent(a, k),
    decreases a.len() - k, 2nat, 0nat,
{
    assert(node_ok(a, k));
    lemma_cursor_extends(a, b, k, a[k as int].children.len());
    match a[k as int].modifier {
        Some(ValueModel::NodeRef(m)) => {
            lemma_extent_extends(a, b, m);
        },
        _ => {},
    }
}

/// A well-formed node stays well formed when nodes are appended to the arena
/// or nodes before it change.
pub proof fn lemma_node_ok_extends(a: Seq<NodeModel>, b: Seq<NodeModel>, k: nat)
    requires
        k < a.len(),
        extends_from(a, b, k),
        all_ok_from(a, k),
    ensures
        node_ok(b, k),
{
    assert(node_ok(a, k));
    lemma_extent_extends(a, b, k);
    assert forall|j: int| 0 <= j < b[k as int].children.len() implies entry_ok(b, k, j) by {
        assert(entry_ok(a, k, j));
        lemma_cursor_extends(a, b, k, j as nat);
    }
    lemma_cursor_extends(a, b, k, a[k as int].children.len());
}

/// Two units that are neither brackets nor blanks join to one that is
/// neither.
pub proof fn lemma_join_other(t: Seq<char>, g: Seq<char>)
    requires
        glyph(t) == Glyph::Other,
        glyph(g) == Glyph::Other,
    ensures
        glyph(t + g) == Glyph::Other,
{
    if t.len() == 0 {
        assert(t + g =~= g);
    } else if g.len() == 0 {
        assert(t + g =~= t);
    } else {
        assert((t + g).len() >= 2);
        assert(seq!['['].len() == 1);
    }
}

/// What the classifier gives is a valid token.
pub proof fn lemma_classified_is_valid(t: Seq<char>)
    requires
        glyph(t) == Glyph::Other,
    ensures
        valid_token(classify_spec(t)),
{
    let v = classify_spec(t);
    match v {
        ValueModel::BackReference(n) => {
            lemma_decimal_digits(n);
            let text = seq!['&'] + decimal_digits(n);
            assert(text.skip(1) =~= decimal_digits(n));
            assert(text[0] == '&');
            assert(text.len() >= 2);
            assert(seq!['['].len() == 1);
            assert(is_back_reference(text));
        },
        ValueModel::Integer(i) => {
            let n = i as nat;
            lemma_decimal_digits(n);
            let text = decimal_digits(n);
            assert(crate::digits::is_digit(text[0]));
            assert(!is_back_reference(text));
            assert(is_integer(text));
            assert(seq!['['][0] == '[');
            assert(seq![']'][0] == ']');
            assert(seq![' '][0] == ' ');
            assert(seq!['\t'][0] == '\t');
            assert(seq!['\r'][0] == '\r');
            assert(seq!['\n'][0] == '\n');
        },
        _ => {},
    }
}

} // verus!
