//! Syntactic validation of airport and carrier codes.
use vstd::prelude::*;
use crate::text::{is_alnum, is_alpha};

verus! {

/// The two kinds of code a query may carry.
#[derive(Clone, Copy, Debug, PartialEq, Eq)]
pub enum CodeKind {
    Airport,
    Carrier,
}

/// An airport code: exactly three alphabetic characters.
pub open spec fn valid_airport_code(s: Seq<char>) -> bool {
    s.len() == 3 && forall|i: int| 0 <= i < s.len() ==> is_alpha(#[trigger] s[i])
}

/// A carrier code: two or three alphanumeric characters.
pub open spec fn valid_carrier_code(s: Seq<char>) -> bool {
    (s.len() == 2 || s.len() == 3) && forall|i: int| 0 <= i < s.len() ==> is_alnum(#[trigger] s[i])
}

/// Whether `s` is a well-formed code of the given kind.
pub open spec fn valid_code(kind: CodeKind, s: Seq<char>) -> bool {
    match kind {
        CodeKind::Airport => valid_airport_code(s),
        CodeKind::Carrier => valid_carrier_code(s),
    }
}

/// Length three and every character alphabetic.
pub fn is_airport_code(s: &Vec<char>) -> (r: bool)
    ensures
        r == valid_airport_code(s@),
{
    if s.len() != 3 {
        return false;
    }
    let mut i: usize = 0;
    while i < 3
        invariant
            s@.len() == 3,
            i <= 3,
            forall|j: int| 0 <= j < i ==> is_alpha(#[trigger] s@[j]),
        decreases 3 - i,
    {
        if !s[i].is_alphabetic() {
            return false;
        }
        i = i + 1;
    }
    true
}

/// Length two or three and every character alphanumeric.
pub fn is_carrier_code(s: &Vec<char>) -> (r: bool)
    ensures
        r == valid_carrier_code(s@),
{
    let n = s.len();
    if n != 2 && n != 3 {
        return false;
    }
    let mut i: usize = 0;
    while i < n
        invariant
            n == s@.len(),
            i <= n,
            forall|j: int| 0 <= j < i ==> is_alnum(#[trigger] s@[j]),
        decreases n - i,
    {
        if !s[i].is_alphanumeric() {
            return false;
        }
        i = i + 1;
    }
    true
}

/// Validates `s` as a code of the given kind.
pub fn is_valid_code(kind: CodeKind, s: &Vec<char>) -> (r: bool)
    ensures
        r == valid_code(kind, s@),
{
    match kind {
        CodeKind::Airport => is_airport_code(s),
        CodeKind::Carrier => is_carrier_code(s),
    }
}

} // verus!
