//! The states of the parser and its transition table.

use vstd::prelude::*;
use crate::grapheme::Glyph;

verus! {

/// Where the parser stands within one sub.
#[derive(Debug, Clone, Copy, PartialEq, Eq, Structural)]
pub enum State {
    /// Before the sub's opening bracket.
    Start,
    /// After the opening bracket: a name or the body's bracket comes next.
    SubOpen,
    /// Within the sub's name.
    InName,
    /// After a name that a blank has ended: the body's bracket comes next.
    NameEnd,
    /// Within the body, between two of its entries.
    InBody,
    /// Within a token of the body.
    InValue,
    /// After the body's closing bracket.
    InModifier,
    /// Within a modifier that is a token.
    InModifierName,
    /// After the modifier: the sub's closing bracket comes next.
    ModifierEnd,
    /// After the sub's closing bracket.
    Done,
}

/// Why a parse stopped.
#[derive(Debug, Clone, Copy, PartialEq, Eq, Structural)]
pub enum Complaint {
    /// `]` where the body's opening bracket should stand.
    SubExpected,
    /// Something else than the body's opening bracket after a name and a
    /// blank.
    SubExpectedAfterName,
    /// `[` within a modifier that is a token.
    EndExpectedAfterModifierName,
    /// Something else than the sub's closing bracket after its modifier.
    EndExpectedAfterModifier,
    /// The input ended within a sub.
    UnexpectedEnd,
    /// The parse was started on something else than an opening bracket.
    NoOpening,
    /// The machine was stepped after it had finished.
    AlreadyDone,
}

/// What the parser does with the grapheme under the cursor.
#[derive(Debug, Clone, Copy, PartialEq, Eq, Structural)]
pub enum Action {
    /// Consume it.
    Advance,
    /// Consume it as the first grapheme of a new token.
    Begin,
    /// Consume it as one more grapheme of the token.
    Extend,
    /// Consume it and make the token the sub's name.
    CommitName,
    /// Parse a nested sub that starts here and append it to the body.
    Descend,
    /// Parse a nested sub that starts here and make it the modifier.
    DescendModifier,
    /// Leave it; classify the token and append it to the body.
    EmitValue,
    /// Leave it; classify the token and make it the modifier.
    EmitModifier,
    /// Stop with an error.
    Reject(Complaint),
}

/// The transition table: for every state and every class of grapheme the
/// next state and what to do.
pub open spec fn transition(state: State, glyph: Glyph) -> (State, Action) {
    match (state, glyph) {
        (State::Start, Glyph::Open) => (State::SubOpen, Action::Advance),
        (State::Start, Glyph::Space) => (State::Start, Action::Advance),
        (State::Start, _) => (State::Start, Action::Reject(Complaint::NoOpening)),
        (State::SubOpen, Glyph::Open) => (State::InBody, Action::Advance),
        (State::SubOpen, Glyph::Close) => (State::SubOpen, Action::Reject(Complaint::SubExpected)),
        (State::SubOpen, Glyph::Space) => (State::SubOpen, Action::Advance),
        (State::SubOpen, Glyph::Other) => (State::InName, Action::Begin),
        (State::InName, Glyph::Open) => (State::InBody, Action::CommitName),
        (State::InName, Glyph::Close) => (State::InName, Action::Reject(Complaint::SubExpected)),
        (State::InName, Glyph::Space) => (State::NameEnd, Action::CommitName),
        (State::InName, Glyph::Other) => (State::InName, Action::Extend),
        (State::NameEnd, Glyph::Open) => (State::InBody, Action::Advance),
        (State::NameEnd, Glyph::Close) => (State::NameEnd, Action::Reject(Complaint::SubExpected)),
        (State::NameEnd, Glyph::Space) => (State::NameEnd, Action::Advance),
        (State::NameEnd, Glyph::Other) => (
            State::NameEnd,
            Action::Reject(Complaint::SubExpectedAfterName),
        ),
        (State::InBody, Glyph::Open) => (State::InBody, Action::Descend),
        (State::InBody, Glyph::Close) => (State::InModifier, Action::Advance),
        (State::InBody, Glyph::Space) => (State::InBody, Action::Advance),
        (State::InBody, Glyph::Other) => (State::InValue, Action::Begin),
        (State::InValue, Glyph::Other) => (State::InValue, Action::Extend),
        (State::InValue, _) => (State::InBody, Action::EmitValue),
        (State::InModifier, Glyph::Open) => (State::ModifierEnd, Action::DescendModifier),
        (State::InModifier, Glyph::Close) => (State::Done, Action::Advance),
        (State::InModifier, Glyph::Space) => (State::InModifier, Action::Advance),
        (State::InModifier, Glyph::Other) => (State::InModifierName, Action::Begin),
        (State::InModifierName, Glyph::Open) => (
            State::InModifierName,
            Action::Reject(Complaint::EndExpectedAfterModifierName),
        ),
        (State::InModifierName, Glyph::Other) => (State::InModifierName, Action::Extend),
        (State::InModifierName, _) => (State::ModifierEnd, Action::EmitModifier),
        (State::ModifierEnd, Glyph::Close) => (State::Done, Action::Advance),
        (State::ModifierEnd, Glyph::Space) => (State::ModifierEnd, Action::Advance),
        (State::ModifierEnd, _) => (
            State::ModifierEnd,
            Action::Reject(Complaint::EndExpectedAfterModifier),
        ),
        (State::Done, _) => (State::Done, Action::Reject(Complaint::AlreadyDone)),
    }
}

/// One lookup in the transition table.
pub fn step(state: State, glyph: Glyph) -> (r: (State, Action))
    ensures
        r == transition(state, glyph),
{
    match (state, glyph) {
        (State::Start, Glyph::Open) => (State::SubOpen, Action::Advance),
        (State::Start, Glyph::Space) => (State::Start, Action::Advance),
        (State::Start, _) => (State::Start, Action::Reject(Complaint::NoOpening)),
        (State::SubOpen, Glyph::Open) => (State::InBody, Action::Advance),
        (State::SubOpen, Glyph::Close) => (State::SubOpen, Action::Reject(Complaint::SubExpected)),
        (State::SubOpen, Glyph::Space) => (State::SubOpen, Action::Advance),
        (State::SubOpen, Glyph::Other) => (State::InName, Action::Begin),
        (State::InName, Glyph::Open) => (State::InBody, Action::CommitName),
        (State::InName, Glyph::Close) => (State::InName, Action::Reject(Complaint::SubExpected)),
        (State::InName, Glyph::Space) => (State::NameEnd, Action::CommitName),
        (State::InName, Glyph::Other) => (State::InName, Action::Extend),
        (State::NameEnd, Glyph::Open) => (State::InBody, Action::Advance),
        (State::NameEnd, Glyph::Close) => (State::NameEnd, Action::Reject(Complaint::SubExpected)),
        (State::NameEnd, Glyph::Space) => (State::NameEnd, Action::Advance),
        (State::NameEnd, Glyph::Other) => (
            State::NameEnd,
            Action::Reject(Complaint::SubExpectedAfterName),
        ),
        (State::InBody, Glyph::Open) => (State::InBody, Action::Descend),
        (State::InBody, Glyph::Close) => (State::InModifier, Action::Advance),
        (State::InBody, Glyph::Space) => (State::InBody, Action::Advance),
        (State::InBody, Glyph::Other) => (State::InValue, Action::Begin),
        (State::InValue, Glyph::Other) => (State::InValue, Action::Extend),
        (State::InValue, _) => (State::InBody, Action::EmitValue),
        (State::InModifier, Glyph::Open) => (State::ModifierEnd, Action::DescendModifier),
        (State::InModifier, Glyph::Close) => (State::Done, Action::Advance),
        (State::InModifier, Glyph::Space) => (State::InModifier, Action::Advance),
        (State::InModifier, Glyph::Other) => (State::InModifierName, Action::Begin),
        (State::InModifierName, Glyph::Open) => (
            State::InModifierName,
            Action::Reject(Complaint::EndExpectedAfterModifierName),
        ),
        (State::InModifierName, Glyph::Other) => (State::InModifierName, Action::Extend),
        (State::InModifierName, _) => (State::ModifierEnd, Action::EmitModifier),
        (State::ModifierEnd, Glyph::Close) => (State::Done, Action::Advance),
        (State::ModifierEnd, Glyph::Space) => (State::ModifierEnd, Action::Advance),
        (State::ModifierEnd, _) => (
            State::ModifierEnd,
            Action::Reject(Complaint::EndExpectedAfterModifier),
        ),
        (State::Done, _) => (State::Done, Action::Reject(Complaint::AlreadyDone)),
    }
}

} // verus!
