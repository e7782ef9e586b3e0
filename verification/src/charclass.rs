//! The character classes that the file-type heuristic is built on.

use vstd::prelude::*;

verus! {

/// The separator between the segments of a path.
pub const SEPARATOR: char = '/';

/// The character that closes a dot-delimited run of alphanumerics.
pub const DOT: char = '.';

/// Whether `c` is an ASCII letter or an ASCII digit.
pub open spec fn is_alnum(c: char) -> bool {
    ||| 'a' <= c <= 'z'
    ||| 'A' <= c <= 'Z'
    ||| '0' <= c <= '9'
}

/// Decides membership in the ASCII alphanumeric class.
pub fn alnum(c: char) -> (b: bool)
    ensures
        b == is_alnum(c),
{
    ('a' <= c && c <= 'z') || ('A' <= c && c <= 'Z') || ('0' <= c && c <= '9')
}

} // verus!
