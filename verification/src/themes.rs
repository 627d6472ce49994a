//! Theme enumeration: keeping the readable directory entries.
//!
//! Reading the themes directory yields, per entry, either a name or a
//! read failure. The failures are tolerated: the caller logs each and
//! goes on. This module keeps the names of the readable entries, in the
//! order the directory gave them.

use vstd::prelude::*;

verus! {

/// The names among `entries`, in order: a `None` stands for an entry
/// that could not be read and is skipped.
pub open spec fn readable_names(entries: Seq<Option<String>>) -> Seq<Seq<char>>
    decreases entries.len(),
{
    if entries.len() == 0 {
        Seq::empty()
    } else {
        let init = readable_names(entries.drop_last());
        if entries.last() is Some {
            init.push(entries.last()->0@)
        } else {
            init
        }
    }
}

/// The number of unreadable entries among `entries`: each is worth one
/// warning to the caller.
pub open spec fn skipped_count(entries: Seq<Option<String>>) -> int
    decreases entries.len(),
{
    if entries.len() == 0 {
        0int
    } else {
        skipped_count(entries.drop_last()) + if entries.last() is None {
            1int
        } else {
            0int
        }
    }
}

/// Every entry is either kept or skipped, so the counts add up.
pub proof fn lemma_collect_partition(entries: Seq<Option<String>>)
    ensures
        readable_names(entries).len() + skipped_count(entries) == entries.len(),
    decreases entries.len(),
{
    if entries.len() > 0 {
        lemma_collect_partition(entries.drop_last());
    }
}

/// Keeps the readable entries' names, in order; a `None` entry is
/// dropped. The caller decides how to report the dropped ones.
pub fn collect_themes(entries: &Vec<Option<String>>) -> (r: Vec<String>)
    ensures
        r@.map_values(|s: String| s@) == readable_names(entries@),
        r@.len() + skipped_count(entries@) == entries@.len(),
{
    let n = entries.len();
    let mut r: Vec<String> = Vec::new();
    let mut i: usize = 0;
    while i < n
        invariant
            i <= n,
            n == entries@.len(),
            r@.map_values(|s: String| s@) == readable_names(entries@.subrange(0, i as int)),
            r@.len() + skipped_count(entries@.subrange(0, i as int)) == i,
        decreases n - i,
    {
        let ghost pre = entries@.subrange(0, i as int);
        let ghost ext = entries@.subrange(0, i + 1 as int);
        proof {
            assert(ext.drop_last() =~= pre);
        }
        match &entries[i] {
            Some(name) => {
                r.push(name.clone());
                proof {
                    assert(r@.map_values(|s: String| s@) =~= readable_names(ext));
                }
            },
            None => {},
        }
        i += 1;
    }
    proof {
        assert(entries@.subrange(0, n as int) =~= entries@);
    }
    r
}

} // verus!
