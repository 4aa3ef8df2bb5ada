//! The grapheme source: a text as the sequence of its user-perceived
//! characters, and the classes of characters that the parser tells apart.

use vstd::prelude::*;

verus! {

/// The extended grapheme clusters of a text, in order, as the
/// unicode-segmentation crate finds them.
pub uninterp spec fn grapheme_clusters(text: Seq<char>) -> Seq<Seq<char>>;

/// Splits `text` with `UnicodeSegmentation::graphemes(text, true)` and copies
/// each cluster into a string of its own.
///
/// Trusted: the clusters depend on the text alone. Nothing else is claimed of
/// them.
#[verifier::external_body]
pub(crate) fn split_graphemes(text: &str) -> (r: Vec<String>)
    ensures
        r.deep_view() == grapheme_clusters(text@),
{
    unicode_segmentation::UnicodeSegmentation::graphemes(text, true).map(String::from).collect()
}

/// What a grapheme is to the parser.
#[derive(Debug, Clone, Copy, PartialEq, Eq, Structural)]
pub enum Glyph {
    /// `[`
    Open,
    /// `]`
    Close,
    /// Space, tab, carriage return or line feed.
    Space,
    /// Anything else.
    Other,
}

/// Whether a grapheme is the line feed.
pub open spec fn is_line_break(g: Seq<char>) -> bool {
    g == seq!['\n']
}

/// The class of a grapheme.
pub open spec fn glyph(g: Seq<char>) -> Glyph {
    if g == seq!['['] {
        Glyph::Open
    } else if g == seq![']'] {
        Glyph::Close
    } else if g == seq![' '] || g == seq!['\t'] || g == seq!['\r'] || g == seq!['\n'] {
        Glyph::Space
    } else {
        Glyph::Other
    }
}

/// The classes of the graphemes that the wrapper sub is made of.
pub proof fn lemma_bracket_glyphs()
    ensures
        glyph(seq!['[']) == Glyph::Open,
        glyph(seq![']']) == Glyph::Close,
        glyph(seq!['\n']) == Glyph::Space,
        glyph(seq![' ']) == Glyph::Space,
        !is_line_break(seq!['[']),
        !is_line_break(seq![']']),
        !is_line_break(seq![' ']),
        is_line_break(seq!['\n']),
{
    assert(seq!['['][0] == '[');
    assert(seq![']'][0] == ']');
    assert(seq!['\n'][0] == '\n');
    assert(seq![' '][0] == ' ');
}

/// The class of one grapheme.
pub fn glyph_of(g: &str) -> (r: Glyph)
    ensures
        r == glyph(g@),
{
    if g.unicode_len() != 1 {
        return Glyph::Other;
    }
    let c: char = g.get_char(0);
    assert(g@ =~= seq![c]);
    if c == '[' {
        Glyph::Open
    } else if c == ']' {
        Glyph::Close
    } else if c == ' ' || c == '\t' || c == '\r' || c == '\n' {
        Glyph::Space
    } else {
        Glyph::Other
    }
}

/// Whether a grapheme ends a line.
pub fn ends_line(g: &str) -> (r: bool)
    ensures
        r == is_line_break(g@),
{
    if g.unicode_len() != 1 {
        return false;
    }
    let c: char = g.get_char(0);
    assert(g@ =~= seq![c]);
    c == '\n'
}

} // verus!
