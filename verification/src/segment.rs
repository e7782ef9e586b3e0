//! The final segment of a path.

use vstd::prelude::*;
use crate::charclass::SEPARATOR;
use crate::text::chars_of;

verus! {

/// The name that a path ends in: the text behind its last separator, or the
/// whole path where it holds no separator. A path that is empty or ends in a
/// separator has the empty name.
pub open spec fn name_of(path: Seq<char>) -> Seq<char>
    decreases path.len(),
{
    if path.len() == 0 || path.last() == SEPARATOR {
        Seq::empty()
    } else {
        name_of(path.drop_last()).push(path.last())
    }
}

/// Whether `start` is where the name of `path` begins: at the front of the
/// path or right behind a separator, with no separator from there on.
pub open spec fn is_name_start(path: Seq<char>, start: int) -> bool {
    &&& 0 <= start <= path.len()
    &&& (start == 0 || path[start - 1] == SEPARATOR)
    &&& forall|k: int| start <= k < path.len() ==> #[trigger] path[k] != SEPARATOR
}

/// The name of a path is the path from where its name begins.
pub proof fn lemma_name_from_start(path: Seq<char>, start: int)
    requires
        is_name_start(path, start),
    ensures
        name_of(path) == path.subrange(start, path.len() as int),
    decreases path.len(),
{
    if start == path.len() {
        assert(name_of(path) =~= path.subrange(start, path.len() as int));
    } else {
        let shorter = path.drop_last();
        assert(path.last() == path[path.len() - 1]);
        assert(is_name_start(shorter, start)) by {
            assert forall|k: int| start <= k < shorter.len() implies #[trigger] shorter[k]
                != SEPARATOR by {
                assert(shorter[k] == path[k]);
            }
        }
        lemma_name_from_start(shorter, start);
        assert(name_of(path) =~= path.subrange(start, path.len() as int));
    }
}

/// Every path has a place where its name begins: as far from the end as its
/// name is long.
pub proof fn lemma_name_start_exists(path: Seq<char>)
    ensures
        is_name_start(path, path.len() - name_of(path).len()),
    decreases path.len(),
{
    if path.len() != 0 && path.last() != SEPARATOR {
        let shorter = path.drop_last();
        let start = shorter.len() - name_of(shorter).len();
        lemma_name_start_exists(shorter);
        assert forall|k: int| start <= k < path.len() implies #[trigger] path[k]
            != SEPARATOR by {
            if k < shorter.len() {
                assert(shorter[k] == path[k]);
            }
        }
        if start > 0 {
            assert(shorter[start - 1] == path[start - 1]);
        }
    }
}

/// A path is what stands before its name, then its name. The name holds no
/// separator, and what stands before it is empty or ends in one; so the name
/// is empty only where the path is empty or ends in a separator.
pub proof fn lemma_name_is_final_segment(path: Seq<char>)
    ensures
        name_of(path).len() <= path.len(),
        path == path.take(path.len() - name_of(path).len()) + name_of(path),
        !name_of(path).contains(SEPARATOR),
        name_of(path).len() < path.len() ==> path[path.len() - name_of(path).len() - 1]
            == SEPARATOR,
        name_of(path).len() == 0 <==> path.len() == 0 || path.last() == SEPARATOR,
{
    let name = name_of(path);
    let start = path.len() - name.len();
    lemma_name_start_exists(path);
    lemma_name_from_start(path, start);
    assert(path =~= path.take(start) + name);
    assert forall|k: int| 0 <= k < name.len() implies name[k] != SEPARATOR by {
        assert(name[k] == path[start + k]);
    }
}

/// Takes the final segment of `path`.
pub fn path_name(path: &str) -> (name: String)
    ensures
        name@ == name_of(path@),
{
    let chars = chars_of(path);
    let n: usize = chars.len();
    let mut start: usize = n;
    while start > 0 && chars[start - 1] != SEPARATOR
        invariant
            n == chars.len(),
            start <= n,
            forall|k: int| start <= k < n ==> #[trigger] chars@[k] != SEPARATOR,
        decreases start,
    {
        start -= 1;
    }
    proof {
        lemma_name_from_start(chars@, start as int);
    }
    path.substring_char(start, n).to_owned()
}

} // verus!
