//! The file-type token of a name.
//!
//! The token is what is left of a name once two kinds of text are struck from
//! it, scanning from the left:
//!
//! * every run of one or more ASCII alphanumerics that a dot closes, together
//!   with that dot; and
//! * the run of ASCII alphanumerics that the name begins with, whether or not a
//!   dot closes it.
//!
//! Everything else stays, in order. The rule looks at character classes only;
//! it is not "the extension of the name": `archive.tar.gz` gives `gz`, without
//! a dot, `README` gives the empty token, and `.gitignore` is its own token.

use vstd::prelude::*;
use crate::charclass::{alnum, is_alnum, DOT};
use crate::text::chars_of;

verus! {

/// Whether every position of `s` from `from` up to, but not including, `to`
/// holds an alphanumeric.
pub open spec fn all_alnum(s: Seq<char>, from: int, to: int) -> bool {
    forall|k: int| from <= k < to ==> is_alnum(#[trigger] s[k])
}

/// Whether the positions from `i` up to `d` are alphanumerics and `d` holds the
/// dot that closes them.
pub open spec fn dotted_run(s: Seq<char>, i: int, d: int) -> bool {
    &&& 0 <= i < d < s.len()
    &&& s[d] == DOT
    &&& all_alnum(s, i, d)
}

/// Whether position `i` lies in a run of alphanumerics that a dot closes.
pub open spec fn in_dotted_run(s: Seq<char>, i: int) -> bool {
    exists|d: int| dotted_run(s, i, d)
}

/// Whether position `i` lies in the run of alphanumerics that `s` begins with.
pub open spec fn in_leading_run(s: Seq<char>, i: int) -> bool {
    0 <= i < s.len() && all_alnum(s, 0, i + 1)
}

/// Whether position `i` holds a dot that closes a run of alphanumerics.
pub open spec fn closes_run(s: Seq<char>, i: int) -> bool {
    0 < i < s.len() && s[i] == DOT && is_alnum(s[i - 1])
}

/// Whether the character at position `i` of `s` is struck from the token.
pub open spec fn stripped(s: Seq<char>, i: int) -> bool {
    in_dotted_run(s, i) || in_leading_run(s, i) || closes_run(s, i)
}

/// The characters among the first `n` of `s` that are not struck, in order.
pub open spec fn kept_prefix(s: Seq<char>, n: int) -> Seq<char>
    decreases n,
{
    if n <= 0 {
        Seq::empty()
    } else if stripped(s, n - 1) {
        kept_prefix(s, n - 1)
    } else {
        kept_prefix(s, n - 1).push(s[n - 1])
    }
}

/// The file-type token of the name `s`.
pub open spec fn token_of(s: Seq<char>) -> Seq<char> {
    kept_prefix(s, s.len() as int)
}

/// Where the run of alphanumerics that starts at `from` ends: the first
/// position at or after `from` that holds no alphanumeric, or the length of `s`.
pub open spec fn is_run_end(s: Seq<char>, from: int, end: int) -> bool {
    &&& 0 <= from <= end <= s.len()
    &&& all_alnum(s, from, end)
    &&& (end < s.len() ==> !is_alnum(s[end]))
}

/// A stretch in which every character is struck adds nothing to the token.
proof fn lemma_stripped_stretch(s: Seq<char>, a: int, b: int)
    requires
        0 <= a <= b <= s.len(),
        forall|k: int| a <= k < b ==> stripped(s, k),
    ensures
        kept_prefix(s, b) == kept_prefix(s, a),
    decreases b - a,
{
    if a < b {
        lemma_stripped_stretch(s, a, b - 1);
    }
}

/// A stretch in which no character is struck is added to the token whole.
proof fn lemma_kept_stretch(s: Seq<char>, a: int, b: int)
    requires
        0 <= a <= b <= s.len(),
        forall|k: int| a <= k < b ==> !stripped(s, k),
    ensures
        kept_prefix(s, b) == kept_prefix(s, a) + s.subrange(a, b),
    decreases b - a,
{
    if a < b {
        lemma_kept_stretch(s, a, b - 1);
        assert(s.subrange(a, b) =~= s.subrange(a, b - 1).push(s[b - 1]));
        assert(kept_prefix(s, b) =~= kept_prefix(s, a) + s.subrange(a, b));
    } else {
        assert(kept_prefix(s, b) =~= kept_prefix(s, a) + s.subrange(a, b));
    }
}

/// A position that holds no alphanumeric is struck only as a closing dot.
proof fn lemma_other_char(s: Seq<char>, i: int)
    requires
        0 <= i < s.len(),
        !is_alnum(s[i]),
    ensures
        stripped(s, i) == closes_run(s, i),
{
    assert forall|d: int| !dotted_run(s, i, d) by {
        if dotted_run(s, i, d) {
            assert(is_alnum(s[i]));
        }
    }
}

/// A run that a dot closes is struck, and the dot with it.
proof fn lemma_dotted_run_stripped(s: Seq<char>, i: int, d: int)
    requires
        dotted_run(s, i, d),
    ensures
        forall|k: int| i <= k <= d ==> stripped(s, k),
{
    assert forall|k: int| i <= k <= d implies stripped(s, k) by {
        if k < d {
            assert(dotted_run(s, k, d));
        } else {
            assert(is_alnum(s[d - 1]));
            assert(closes_run(s, d));
        }
    }
}

/// A run that no dot closes holds no position of a dotted run.
proof fn lemma_open_run_not_dotted(s: Seq<char>, i: int, end: int)
    requires
        is_run_end(s, i, end),
        i < end < s.len() ==> s[end] != DOT,
    ensures
        forall|k: int| i <= k < end ==> !in_dotted_run(s, k),
{
    assert forall|k: int| i <= k < end implies !in_dotted_run(s, k) by {
        assert forall|d: int| !dotted_run(s, k, d) by {
            if dotted_run(s, k, d) {
                if d < end {
                    assert(is_alnum(s[d]));
                } else if d > end {
                    assert(is_alnum(s[end]));
                }
            }
        }
    }
}

/// The run that a name begins with is struck.
proof fn lemma_leading_run_stripped(s: Seq<char>, end: int)
    requires
        is_run_end(s, 0, end),
    ensures
        forall|k: int| 0 <= k < end ==> stripped(s, k),
{
    assert forall|k: int| 0 <= k < end implies stripped(s, k) by {
        assert(in_leading_run(s, k));
    }
}

/// A run that neither begins the name nor is closed by a dot stays.
proof fn lemma_inner_open_run_kept(s: Seq<char>, i: int, end: int)
    requires
        is_run_end(s, i, end),
        0 < i,
        !is_alnum(s[i - 1]),
        i < end < s.len() ==> s[end] != DOT,
    ensures
        forall|k: int| i <= k < end ==> !stripped(s, k),
{
    lemma_open_run_not_dotted(s, i, end);
    assert forall|k: int| i <= k < end implies !stripped(s, k) by {
        assert(is_alnum(s[k]));
        if in_leading_run(s, k) {
            assert(is_alnum(s[i - 1]));
        }
    }
}

/// In a name without a dot, the run of alphanumerics that it begins with is
/// struck and the rest stays: a name made of alphanumerics alone has the
/// empty token.
pub proof fn lemma_token_without_dot(s: Seq<char>, end: int)
    requires
        !s.contains(DOT),
        is_run_end(s, 0, end),
    ensures
        token_of(s) == s.subrange(end, s.len() as int),
{
    lemma_leading_run_stripped(s, end);
    lemma_stripped_stretch(s, 0, end);
    assert forall|k: int| end <= k < s.len() implies !stripped(s, k) by {
        assert(s[k] != DOT);
        assert forall|d: int| !dotted_run(s, k, d) by {
            if dotted_run(s, k, d) {
                assert(s.contains(DOT));
            }
        }
        if in_leading_run(s, k) {
            assert(is_alnum(s[end]));
        }
    }
    lemma_kept_stretch(s, end, s.len() as int);
    assert(token_of(s) =~= s.subrange(end, s.len() as int));
}

/// A name that begins with no alphanumeric, and in which no dot stands right
/// behind an alphanumeric, is its own token.
pub proof fn lemma_token_unchanged(s: Seq<char>)
    requires
        s.len() > 0 ==> !is_alnum(s[0]),
        forall|k: int| 0 < k < s.len() && #[trigger] s[k] == DOT ==> !is_alnum(s[k - 1]),
    ensures
        token_of(s) == s,
{
    assert forall|k: int| 0 <= k < s.len() implies !stripped(s, k) by {
        assert forall|d: int| !dotted_run(s, k, d) by {
            if dotted_run(s, k, d) {
                assert(s[d] == DOT);
                assert(is_alnum(s[d - 1]));
            }
        }
        if in_leading_run(s, k) {
            assert(is_alnum(s[0]));
        }
    }
    lemma_kept_stretch(s, 0, s.len() as int);
    assert(token_of(s) =~= s);
}

/// The end of the run of alphanumerics that starts at `from`.
fn run_end(chars: &Vec<char>, from: usize) -> (end: usize)
    requires
        from <= chars.len(),
    ensures
        is_run_end(chars@, from as int, end as int),
{
    let mut end: usize = from;
    while end < chars.len() && alnum(chars[end])
        invariant
            from <= end <= chars.len(),
            all_alnum(chars@, from as int, end as int),
        decreases chars.len() - end,
    {
        end += 1;
    }
    end
}

/// Derives the file-type token of `name`.
pub fn file_type_token(name: &str) -> (token: String)
    ensures
        token@ == token_of(name@),
{
    let chars = chars_of(name);
    let n: usize = chars.len();
    let mut token = String::new();
    let mut i: usize = 0;
    while i < n
        invariant
            chars@ == name@,
            n == chars.len(),
            i <= n,
            i == 0 || i == n || !is_alnum(chars@[i - 1]),
            token@ == kept_prefix(name@, i as int),
        decreases n - i,
    {
        let end = run_end(&chars, i);
        if i < end && end < n && chars[end] == DOT {
            proof {
                lemma_dotted_run_stripped(chars@, i as int, end as int);
                lemma_stripped_stretch(chars@, i as int, end + 1);
            }
            i = end + 1;
        } else {
            let next: usize = if end < n { end + 1 } else { n };
            proof {
                if end < n {
                    lemma_other_char(chars@, end as int);
                }
            }
            if i == 0 {
                proof {
                    lemma_leading_run_stripped(chars@, end as int);
                    lemma_stripped_stretch(chars@, 0, end as int);
                    lemma_kept_stretch(chars@, end as int, next as int);
                }
                token.append(name.substring_char(end, next));
            } else {
                proof {
                    lemma_inner_open_run_kept(chars@, i as int, end as int);
                    lemma_kept_stretch(chars@, i as int, next as int);
                }
                token.append(name.substring_char(i, next));
            }
            i = next;
        }
    }
    token
}

} // verus!
