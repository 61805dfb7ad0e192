//! Recognition of a single directive `$(content, style-list)`.
//!
//! The content runs from just after `$(` to the first comma and is not empty; the
//! style list runs from that comma to the first `)` after it and is not empty
//! either. Whitespace after the comma belongs to the style list until trimming.
use vstd::prelude::*;

use crate::text::{find_char, find_char_from, lemma_find_char};

verus! {

/// Where the directive that starts at index `p` of `s` has its separating comma
/// and its closing parenthesis, or `None` when no directive starts there.
pub open spec fn directive_at(s: Seq<char>, p: int) -> Option<(int, int)> {
    if 0 <= p && p + 1 < s.len() && s[p] == '$' && s[p + 1] == '(' {
        match find_char(s, ',', p + 2) {
            Some(comma) => if comma > p + 2 {
                match find_char(s, ')', comma + 1) {
                    Some(close) => if close > comma + 1 {
                        Some((comma, close))
                    } else {
                        None
                    },
                    None => None,
                }
            } else {
                None
            },
            None => None,
        }
    } else {
        None
    }
}

/// The grammar stated directly: `$(` at `start`, a non-empty run without a comma,
/// the comma, a non-empty run without `)`, and `)` at `close`.
pub open spec fn is_directive(s: Seq<char>, start: int, comma: int, close: int) -> bool {
    &&& 0 <= start && start + 2 < comma && comma + 1 < close && close < s.len()
    &&& s[start] == '$' && s[start + 1] == '('
    &&& s[comma] == ',' && forall|j: int| start + 2 <= j < comma ==> s[j] != ','
    &&& s[close] == ')' && forall|j: int| comma < j < close ==> s[j] != ')'
}

/// `directive_at` finds a directive exactly where the grammar has one.
pub proof fn lemma_directive_at_grammar(s: Seq<char>, p: int)
    ensures
        directive_at(s, p) matches Some((comma, close)) ==> is_directive(s, p, comma, close),
        forall|comma: int, close: int|
            #[trigger] is_directive(s, p, comma, close) ==> directive_at(s, p) == Some(
                (comma, close),
            ),
{
    lemma_find_char(s, ',', p + 2);
    if let Some(comma) = find_char(s, ',', p + 2) {
        lemma_find_char(s, ')', comma + 1);
    }
    assert forall|comma: int, close: int| #[trigger]
        is_directive(s, p, comma, close) implies directive_at(s, p) == Some((comma, close)) by {
        lemma_find_char(s, ')', comma + 1);
    }
}

/// The comma and closing parenthesis of the directive that starts at `p`, if one
/// does.
pub fn find_directive_at(s: &Vec<char>, p: usize) -> (r: Option<(usize, usize)>)
    ensures
        r is None <==> directive_at(s@, p as int) is None,
        r matches Some((comma, close)) ==> {
            &&& directive_at(s@, p as int) == Some((comma as int, close as int))
            &&& p + 2 < comma && comma + 1 < close && close < s@.len()
        },
{
    if p < s.len() && s.len() - p > 1 && s[p] == '$' && s[p + 1] == '(' {
        proof {
            lemma_find_char(s@, ',', p + 2);
        }
        match find_char_from(s, ',', p + 2) {
            Some(comma) => if comma > p + 2 {
                proof {
                    lemma_find_char(s@, ')', comma + 1);
                }
                match find_char_from(s, ')', comma + 1) {
                    Some(close) => if close > comma + 1 {
                        Some((comma, close))
                    } else {
                        None
                    },
                    None => None,
                }
            } else {
                None
            },
            None => None,
        }
    } else {
        None
    }
}

} // verus!
