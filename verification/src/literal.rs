//! The classifier of finished tokens: back-reference, integer, float or
//! bare name.

use vstd::prelude::*;
use crate::digits::{all_digits, decimal_value, parse_decimal};
use crate::value::{Value, ValueModel};

verus! {

/// `&` followed by any number of digits.
pub open spec fn is_back_reference(t: Seq<char>) -> bool {
    t.len() >= 1 && t[0] == '&' && all_digits(t.skip(1))
}

/// One or more digits.
pub open spec fn is_integer(t: Seq<char>) -> bool {
    t.len() >= 1 && all_digits(t)
}

/// One or more digits, a dot, one or more digits.
pub open spec fn is_float(t: Seq<char>) -> bool {
    exists|k: int|
        0 < k < t.len() - 1 && #[trigger] t[k] == '.' && all_digits(t.subrange(0, k))
            && all_digits(t.subrange(k + 1, t.len() as int))
}

/// The form of a back-reference, as a pattern of the regex crate.
pub open spec fn back_reference_pattern() -> Seq<char> {
    "^&([0-9]*)$"@
}

/// The form of an integer, as a pattern of the regex crate.
pub open spec fn integer_pattern() -> Seq<char> {
    "^([0-9]+)$"@
}

/// The form of a float, as a pattern of the regex crate.
pub open spec fn float_pattern() -> Seq<char> {
    "^([0-9]+\\.[0-9]+)$"@
}

/// Whether `p` is one of the three patterns.
pub open spec fn is_literal_pattern(p: Seq<char>) -> bool {
    p == back_reference_pattern() || p == integer_pattern() || p == float_pattern()
}

/// Whether the literal form that `pattern` describes holds of `text`.
pub open spec fn pattern_accepts(pattern: Seq<char>, text: Seq<char>) -> bool {
    if pattern == back_reference_pattern() {
        is_back_reference(text)
    } else if pattern == integer_pattern() {
        is_integer(text)
    } else {
        is_float(text)
    }
}

/// Compiles `pattern` with `regex::Regex::new` and asks `Regex::is_match`
/// whether it matches `text`.
///
/// Trusted: for the three patterns of this module the answer is the one that
/// their syntax defines. `^` and `$` match only at the two ends of the text,
/// `[0-9]` matches one ASCII digit, `*` and `+` repeat it (zero, or one, or more
/// times), `&` and `\.` match themselves, and the brackets only group.
#[verifier::external_body]
fn pattern_matches(pattern: &str, text: &str) -> (r: bool)
    requires
        is_literal_pattern(pattern@),
    ensures
        r == pattern_accepts(pattern@, text@),
{
    match regex::Regex::new(pattern) {
        Ok(re) => re.is_match(text),
        Err(_) => false,
    }
}

/// The value that a finished token stands for. The forms are tried in this
/// order: back-reference, integer, float; whatever is none of them is a name.
/// A number too large for its type leaves the token a name.
pub open spec fn classify_spec(t: Seq<char>) -> ValueModel {
    if is_back_reference(t) {
        if decimal_value(t.skip(1)) <= usize::MAX {
            ValueModel::BackReference(decimal_value(t.skip(1)))
        } else {
            ValueModel::Name(t)
        }
    } else if is_integer(t) {
        if decimal_value(t) <= i64::MAX {
            ValueModel::Integer(decimal_value(t) as int)
        } else {
            ValueModel::Name(t)
        }
    } else if is_float(t) {
        ValueModel::Float(t)
    } else {
        ValueModel::Name(t)
    }
}

/// The three patterns are three different texts.
proof fn lemma_patterns_differ()
    ensures
        back_reference_pattern() != integer_pattern(),
        back_reference_pattern() != float_pattern(),
        integer_pattern() != float_pattern(),
{
    reveal_strlit("^&([0-9]*)$");
    reveal_strlit("^([0-9]+)$");
    reveal_strlit("^([0-9]+\\.[0-9]+)$");
    assert(back_reference_pattern().len() == 11);
    assert(integer_pattern().len() == 10);
    assert(float_pattern().len() == 18);
}

/// Classifies a finished token.
pub fn classify(token: &str) -> (v: Value)
    ensures
        v.deep_view() == classify_spec(token@),
{
    proof {
        lemma_patterns_differ();
    }
    if pattern_matches("^&([0-9]*)$", token) {
        match parse_decimal(token, 1) {
            Some(n) => {
                if n <= usize::MAX as u64 {
                    return Value::BackReference(n as usize);
                }
            },
            None => {},
        }
    } else if pattern_matches("^([0-9]+)$", token) {
        assert(token@.skip(0) =~= token@);
        match parse_decimal(token, 0) {
            Some(n) => {
                if n <= i64::MAX as u64 {
                    return Value::Integer(n as i64);
                }
            },
            None => {},
        }
    } else if pattern_matches("^([0-9]+\\.[0-9]+)$", token) {
        return Value::Float(String::from_str(token));
    }
    Value::Name(String::from_str(token))
}

} // verus!
