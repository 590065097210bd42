//! Tree-walker core: from enumerated directory entries, keep exactly the
//! regular files, in enumeration order.

use vstd::prelude::*;

verus! {

/// The paths of the entries whose metadata reported a regular file, in
/// order. Directories, symbolic links and special files contribute nothing.
pub open spec fn regular_paths(entries: Seq<(Seq<char>, bool)>) -> Seq<Seq<char>>
    decreases entries.len(),
{
    if entries.len() == 0 {
        Seq::empty()
    } else {
        regular_paths(entries.drop_last()) + (if entries.last().1 {
            seq![entries.last().0]
        } else {
            Seq::empty()
        })
    }
}

/// Select, in order, the paths of the entries flagged as regular files.
///
/// Each pair is a path as enumerated during the walk together with whether
/// its metadata reported a regular file. The count a walk reports is exactly
/// the length of the returned path list.
pub fn regular_file_paths(entries: &Vec<(String, bool)>) -> (r: Vec<String>)
    ensures
        r.deep_view() == regular_paths(entries.deep_view()),
        r@.len() == regular_paths(entries.deep_view()).len(),
{
    let ghost entries_view = entries.deep_view();
    let mut r: Vec<String> = Vec::new();
    let mut i: usize = 0;
    while i < entries.len()
        invariant
            i <= entries.len(),
            entries_view == entries.deep_view(),
            entries_view.len() == entries.len(),
            r.deep_view() == regular_paths(entries_view.subrange(0, i as int)),
        decreases entries.len() - i,
    {
        let entry = &entries[i];
        proof {
            assert(entries_view.subrange(0, i + 1 as int).drop_last() =~= entries_view.subrange(
                0,
                i as int,
            ));
            assert(entries_view.subrange(0, i + 1 as int).last() == entries_view[i as int]);
            assert(entries_view[i as int].0 == entry.0@);
        }
        if entry.1 {
            r.push(entry.0.clone());
        }
        proof {
            assert(r.deep_view() =~= regular_paths(entries_view.subrange(0, i + 1 as int)));
        }
        i += 1;
    }
    proof {
        assert(entries_view.subrange(0, entries_view.len() as int) =~= entries_view);
    }
    r
}

} // verus!
