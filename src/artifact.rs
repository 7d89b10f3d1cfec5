//! The self-describing bcrypt artifact: `$<tag>$<cost>$<salt><digest>`, with
//! a two-character tag, a two-digit cost and 53 characters of bcrypt's
//! base64 alphabet (22 for the salt, 31 for the digest).

use vstd::prelude::*;
use vstd::string::*;
use crate::cost::{is_digit, digit_value};

verus! {

/// Smallest work factor bcrypt accepts.
pub const MIN_COST: u32 = 4;

/// Largest work factor bcrypt accepts.
pub const MAX_COST: u32 = 31;

/// Length of every bcrypt artifact, in characters.
pub const ARTIFACT_LEN: usize = 60;

pub open spec fn is_bcrypt_base64(c: char) -> bool {
    c == '.' || c == '/' || ('A' <= c && c <= 'Z') || ('a' <= c && c <= 'z') || ('0' <= c && c <= '9')
}

/// The version tags of the bcrypt family: `2a`, `2b`, `2x` and `2y`.
pub open spec fn is_bcrypt_tag(a: char, b: char) -> bool {
    a == '2' && (b == 'a' || b == 'b' || b == 'x' || b == 'y')
}

/// The cost written in the artifact's two cost digits.
pub open spec fn artifact_cost(a: Seq<char>) -> int {
    digit_value(a[4]) * 10 + digit_value(a[5])
}

pub open spec fn well_formed_header(a: Seq<char>) -> bool {
    &&& a[0] == '$'
    &&& is_bcrypt_tag(a[1], a[2])
    &&& a[3] == '$'
    &&& is_digit(a[4])
    &&& is_digit(a[5])
    &&& a[6] == '$'
    &&& MIN_COST <= artifact_cost(a) <= MAX_COST
}

/// An artifact whose structure a bcrypt tag advertises: 60 characters, the
/// header fields at their places, a cost in range, and salt and digest
/// written in bcrypt's base64 alphabet.
pub open spec fn well_formed_artifact(a: Seq<char>) -> bool {
    &&& a.len() == ARTIFACT_LEN
    &&& well_formed_header(a)
    &&& forall|i: int| 7 <= i < ARTIFACT_LEN ==> is_bcrypt_base64(#[trigger] a[i])
}

fn is_digit_char(c: char) -> (r: bool)
    ensures
        r == is_digit(c),
{
    '0' <= c && c <= '9'
}

/// Tells whether `a` is structurally a bcrypt artifact.
pub fn is_well_formed_artifact(a: &str) -> (r: bool)
    ensures
        r == well_formed_artifact(a@),
{
    if a.unicode_len() != ARTIFACT_LEN {
        return false;
    }
    let c0 = a.get_char(0);
    let c1 = a.get_char(1);
    let c2 = a.get_char(2);
    let c3 = a.get_char(3);
    let c4 = a.get_char(4);
    let c5 = a.get_char(5);
    let c6 = a.get_char(6);
    if !(c0 == '$' && c3 == '$' && c6 == '$') {
        return false;
    }
    if !(c1 == '2' && (c2 == 'a' || c2 == 'b' || c2 == 'x' || c2 == 'y')) {
        return false;
    }
    if !(is_digit_char(c4) && is_digit_char(c5)) {
        return false;
    }
    let cost: u32 = (c4 as u32 - '0' as u32) * 10 + (c5 as u32 - '0' as u32);
    assert(cost == artifact_cost(a@));
    if !(MIN_COST <= cost && cost <= MAX_COST) {
        return false;
    }
    let mut i: usize = 7;
    while i < ARTIFACT_LEN
        invariant
            a@.len() == ARTIFACT_LEN,
            well_formed_header(a@),
            7 <= i <= ARTIFACT_LEN,
            forall|j: int| 7 <= j < i ==> is_bcrypt_base64(#[trigger] a@[j]),
        decreases ARTIFACT_LEN - i,
    {
        let c = a.get_char(i);
        if !(c == '.' || c == '/' || ('A' <= c && c <= 'Z') || ('a' <= c && c <= 'z') || ('0' <= c && c <= '9')) {
            return false;
        }
        i = i + 1;
    }
    true
}

} // verus!
