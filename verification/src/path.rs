//! Paths below the root of a scan.

use crate::text::{chars_of, occurs_at_index, slice_chars, string_of};
use vstd::prelude::*;

verus! {

/// The part of `path` below `root`, if `path` lies at or below `root`: the
/// rest of `path` after `root` and the separator `/` that follows it.
/// Every path lies below the empty root. A path that only begins with the
/// characters of `root`, but parts from it in the middle of a name, does
/// not lie below it.
pub open spec fn below_root(root: Seq<char>, path: Seq<char>) -> Option<Seq<char>> {
    if root.len() == 0 {
        Some(path)
    } else if !root.is_prefix_of(path) {
        None
    } else if path.len() == root.len() {
        Some(Seq::empty())
    } else if root.last() == '/' {
        Some(path.skip(root.len() as int))
    } else if path[root.len() as int] == '/' {
        Some(path.skip(root.len() as int + 1))
    } else {
        None
    }
}

/// The path as it is recorded: relative to `root` if it lies below `root`,
/// and as it is if it does not.
pub open spec fn relative(root: Seq<char>, path: Seq<char>) -> Seq<char> {
    match below_root(root, path) {
        Some(rest) => rest,
        None => path,
    }
}

/// The part of `path` below `root`, or `None` if `path` does not lie below
/// `root`.
pub fn strip_root(root: &str, path: &str) -> (r: Option<String>)
    ensures
        (match r {
            Some(rest) => Some(rest@),
            None => None,
        }) == below_root(root@, path@),
{
    let base = chars_of(root);
    let full = chars_of(path);
    if base.len() == 0 {
        return Some(string_of(&full));
    }
    if base.len() > full.len() {
        return None;
    }
    let begins = occurs_at_index(&full, &base, 0);
    assert(begins == base@.is_prefix_of(full@)) by {
        if base@.is_prefix_of(full@) {
            assert(full@.subrange(0, base.len() as int) =~= base@);
        }
        if full@.subrange(0, base.len() as int) == base@ {
            assert(base@.is_prefix_of(full@));
        }
    }
    if !begins {
        return None;
    }
    let start: usize = if full.len() == base.len() {
        full.len()
    } else if base[base.len() - 1] == '/' {
        base.len()
    } else if full[base.len()] == '/' {
        base.len() + 1
    } else {
        return None;
    };
    let rest = slice_chars(&full, start, full.len());
    assert(rest@ == full@.skip(start as int));
    assert(full@.skip(full.len() as int) == Seq::<char>::empty());
    Some(string_of(&rest))
}

/// The path as it is recorded for a scan of `root`.
pub fn relative_to(root: &str, path: &str) -> (r: String)
    ensures
        r@ == relative(root@, path@),
{
    match strip_root(root, path) {
        Some(rest) => rest,
        None => path.to_owned(),
    }
}

} // verus!
